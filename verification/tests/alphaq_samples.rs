//! Pools of sampled state and what they pay.
use amm_replay::protocols::create_protocol;
use amm_replay::protocols::quotes::TierInput;

type Fields = &'static [(usize, u8, u128)];
type Update = (&'static str, usize, Fields);
type Sample = (&'static [Update], &'static [(u64, bool, u64, i128)]);

/// Account updates by role, size and fields; then amounts with their direction,
/// their slot and what comes out: nothing at zero, out of range below it.
const SAMPLES: &[Sample] = &[
    (
        &[
            ("pool", 496, &[
                (106, 1, 6), (107, 1, 9), (360, 8, 671862057), (408, 8, 121593),
                (424, 8, 736795396452031618), (432, 8, 992111990602), (440, 8, 1018176368003),
                (464, 8, 455105), (472, 8, 8528693735065), (480, 8, 40), (488, 8, 9),
            ]),
            ("base_vault", 72, &[
                (64, 8, 1),
            ]),
            ("quote_vault", 165, &[
                (64, 8, 61964),
            ]),
        ],
        &[
            (13116750213960275, false, 1000, 17110124205019941831),
            (115194, true, 1000, 0),
            (7, true, 1000, 0),
            (139247772555, false, 1000, 10179096165011510605),
            (6807841460, false, 1000, 0),
            (8172960830791, true, 1000, 108942),
        ],
    ),
    (
        &[
            ("pool", 496, &[
                (106, 1, 5), (360, 8, 12475574246), (408, 8, 1005691075034), (424, 8, 2581926535595),
                (432, 8, 994276340403), (440, 8, 1004222499673), (464, 8, 18326990122), (480, 8, 27981),
                (488, 8, 1037886),
            ]),
            ("base_vault", 72, &[
                (64, 8, 95045582),
            ]),
            ("quote_vault", 165, &[
                (64, 8, 3357940),
            ]),
        ],
        &[
            (7349, true, 1000, 2830217),
            (103185500, true, 1000, 39738383434),
            (1, false, 1000, 0),
            (2942, false, 1000, 7),
            (1013404223, false, 1000, 2601588),
            (0, true, 1000, 0),
        ],
    ),
    (
        &[
            ("pool", 496, &[
                (106, 1, 6), (107, 1, 6), (360, 8, 160030), (408, 8, 1002633732047), (424, 8, 2914288831516),
                (432, 8, 993794661468), (440, 8, 1019597725550), (464, 8, 658150), (472, 8, 1963),
                (480, 8, 14), (488, 8, 1543),
            ]),
            ("base_vault", 72, &[
                (64, 8, 467019455),
            ]),
            ("quote_vault", 165, &[
                (64, 8, 5953653360),
            ]),
        ],
        &[
            (510071, false, 1000, 147727001),
            (85133017, false, 1000, 24656028544),
            (229347, false, 1000, 66423585),
            (1455599040, false, 1000, 420393427273),
            (0, false, 1000, 0),
            (5, false, 1000, 1448),
        ],
    ),
    (
        &[
            ("pool", 512, &[
                (106, 1, 20), (107, 1, 3), (360, 8, 47636488), (408, 8, 1005893769566),
                (424, 8, 2120880053072), (432, 8, 999096820753), (440, 8, 1000425051445), (464, 8, 2106566),
                (472, 8, 478477), (480, 8, 303), (488, 8, 167785),
            ]),
            ("base_vault", 72, &[
                (64, 8, 745),
            ]),
            ("quote_vault", 165, &[
                (64, 8, 640),
            ]),
        ],
        &[
            (82738839465, false, 1000, -1),
            (0, false, 1000, 0),
            (262149, true, 1000, -1),
            (10740, true, 1000, -1),
            (417, false, 1000, -1),
            (1974970011140, true, 1000, -1),
        ],
    ),
    (
        &[
            ("pool", 496, &[
                (106, 1, 9), (107, 1, 6), (360, 8, 1946556572688), (408, 8, 1005684015635),
                (424, 8, 1010197034111), (432, 8, 985411997620), (440, 8, 1015740138757), (464, 8, 2),
                (472, 8, 20), (480, 8, 28058384), (488, 8, 48126),
            ]),
            ("base_vault", 72, &[
                (64, 8, 44578),
            ]),
            ("quote_vault", 165, &[
                (64, 8, 1769893891787),
            ]),
        ],
        &[
            (56391585456, true, 1000, 549573232362),
            (185947536, false, 1000, 18510338),
            (38140132, true, 1000, 371700792),
            (104632, true, 1000, 1019707),
            (8675336, false, 1000, 863595),
            (14349780832, true, 1000, 139848093278),
        ],
    ),
    (
        &[
            ("pool", 512, &[
                (106, 1, 9), (107, 1, 6), (408, 8, 2), (424, 8, 4409624146494191346), (432, 8, 993874112145),
                (440, 8, 1018477095991), (464, 8, 4229069841469957), (472, 8, 5592), (480, 8, 16546),
                (488, 8, 1803918896672134480),
            ]),
            ("base_vault", 72, &[
                (64, 8, 2),
            ]),
            ("quote_vault", 165, &[
                (64, 8, 3233),
            ]),
        ],
        &[
            (116344, false, 1000, 50989047896),
            (25941, true, 1000, 0),
            (0, true, 1000, 0),
            (48, true, 1000, 0),
            (285732432535, true, 1000, 636219),
            (1802926329086, true, 1000, 4014441),
        ],
    ),
    (
        &[
            ("pool", 496, &[
                (106, 1, 9), (107, 1, 6), (360, 8, 7), (408, 8, 13444385504160), (424, 8, 171204210870022),
                (432, 8, 997088978694), (440, 8, 1001722560154), (464, 8, 543007130304), (472, 8, 36406),
                (488, 8, 22491864518051),
            ]),
            ("base_vault", 72, &[
                (64, 8, 766892805),
            ]),
            ("quote_vault", 165, &[
                (64, 8, 3865620),
            ]),
        ],
        &[
            (19, false, 1000, -1),
            (1285, true, 1000, 5),
            (63772817, false, 1000, -1),
            (0, true, 1000, 0),
            (1260959027725, false, 1000, -1),
            (17497413, false, 1000, -1),
        ],
    ),
    (
        &[
            ("pool", 512, &[
                (106, 1, 20), (107, 1, 3), (360, 8, 7959), (408, 8, 1004641432143), (424, 8, 2372771597482),
                (432, 8, 982462920984), (440, 8, 1016264434118), (464, 8, 3403630105), (472, 8, 227812),
                (480, 8, 2670848), (488, 8, 139453),
            ]),
            ("base_vault", 72, &[
                (64, 8, 51),
            ]),
            ("quote_vault", 165, &[
                (64, 8, 3077696297),
            ]),
        ],
        &[
            (61858, false, 1000, -1),
            (6016, false, 1000, -1),
            (3437007, true, 1000, -1),
            (0, false, 1000, 0),
            (19666983458, false, 1000, -1),
            (134040, false, 1000, -1),
        ],
    ),
    (
        &[
            ("pool", 496, &[
                (106, 1, 20), (107, 1, 3), (360, 8, 911655), (408, 8, 394385108951951),
                (424, 8, 413735285803892), (432, 8, 996561186623), (440, 8, 1004842521250),
                (464, 8, 749944094875886), (472, 8, 66221954583137), (480, 8, 3366033917630745),
                (488, 8, 435443),
            ]),
            ("base_vault", 72, &[
                (64, 8, 13303954996218),
            ]),
            ("quote_vault", 165, &[
                (64, 8, 127448240245),
            ]),
        ],
        &[
            (337092, true, 1000, -1),
            (98, true, 1000, -1),
            (51802973170485226, false, 1000, -1),
            (98573, true, 1000, -1),
            (13950, false, 1000, -1),
            (3761125767418, true, 1000, -1),
        ],
    ),
    (
        &[
            ("pool", 512, &[
                (106, 1, 6), (107, 1, 6), (360, 8, 62847), (408, 8, 1008040967910), (424, 8, 921751240692),
                (432, 8, 984012484129), (440, 8, 1011397778743), (464, 8, 10552), (472, 8, 25369),
                (480, 8, 19275025), (488, 8, 8120),
            ]),
            ("base_vault", 72, &[
                (64, 8, 12341500864191),
            ]),
            ("quote_vault", 165, &[
                (64, 8, 125437771449),
            ]),
        ],
        &[
            (32531, false, 1000, 2950609),
            (14, false, 1000, 1269),
            (15, true, 1000, 0),
            (29169, true, 1000, 312),
            (47, false, 1000, 4262),
            (43, false, 1000, 3900),
        ],
    ),
    (
        &[
            ("pool", 512, &[
                (106, 1, 9), (107, 1, 6), (360, 8, 3), (408, 8, 1000926423316), (424, 8, 2186932400769),
                (432, 8, 996678582864), (440, 8, 1005835267757), (464, 8, 1897322), (472, 8, 192438),
                (480, 8, 705989),
            ]),
            ("base_vault", 72, &[
            ]),
            ("quote_vault", 165, &[
                (64, 8, 914822),
            ]),
        ],
        &[
            (968897996147497332, false, 1000, 0),
            (612888076869900, true, 1000, 0),
            (10, true, 1000, 0),
            (416206608, false, 1000, 0),
            (3241722856582, false, 1000, 0),
            (2949250478461, false, 1000, 0),
        ],
    ),
    (
        &[
            ("pool", 512, &[
                (106, 1, 9), (107, 1, 6), (360, 8, 1411016), (408, 8, 1005660473371),
                (424, 8, 2262593657102), (432, 8, 990513609813), (440, 8, 1013337646945),
                (464, 8, 1512506120), (472, 8, 1), (480, 8, 347), (488, 8, 4751235),
            ]),
            ("base_vault", 72, &[
                (64, 8, 1322),
            ]),
            ("quote_vault", 165, &[
                (64, 8, 1390410619444),
            ]),
        ],
        &[
            (759, false, 1000, 170),
            (3546, false, 1000, 794),
            (1352616, false, 1000, 303138),
            (50025574916, true, 1000, 218188213759),
            (1444, true, 1000, 6298),
            (19512616770, false, 1000, 4373030788),
        ],
    ),
];

fn account(len: usize, fields: Fields) -> Vec<u8> {
    let mut data = vec![0u8; len];
    for (offset, width, value) in fields {
        let bytes = value.to_le_bytes();
        for i in 0..*width as usize {
            data[offset + i] = bytes[i];
        }
    }
    data
}

#[test]
fn alphaq_samples() {
    for (k, (updates, quotes)) in SAMPLES.iter().enumerate() {
        let mut pool = create_protocol("alphaq").unwrap();
        for (role, len, fields) in updates.iter() {
            let data = account(*len, fields);
            assert!(pool.can_apply(role, &data));
            pool.apply_update(role, &data, 1000);
        }
        assert!(pool.is_ready());
        for (amount, b2q, slot, expected) in quotes.iter() {
            let direction = if *b2q { "B2Q" } else { "Q2B" };
            let got = match pool.try_quote_single(*amount, direction, *slot) {
                None => -1,
                Some(None) => 0,
                Some(Some(out)) => out as i128,
            };
            assert_eq!(got, *expected, "sample {k}: {amount} {direction} at {slot}");

            let tier = TierInput { micro_usd: *amount as u128, usd_e21: 0, base_amount: Some(*amount) };
            if let Some(rows) = pool.try_compute_quotes(*slot, &[tier]) {
                if !*b2q && *expected > 0 {
                    let row = rows.iter().find(|r| r.direction == "B2Q").unwrap();
                    assert_eq!((row.input_amount, row.output_amount as i128), (*amount, *expected), "sample {k}");
                }
            }
        }
    }
}
