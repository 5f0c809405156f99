//! Pools of sampled state and what they pay.
use amm_replay::protocols::create_protocol;
use amm_replay::protocols::quotes::TierInput;

type Fields = &'static [(usize, u8, u128)];
type Update = (&'static str, usize, Fields);
type Sample = (&'static [Update], &'static [(u64, bool, u64, i128)]);

/// Account updates by role, size and fields; then amounts with their direction,
/// their slot and what comes out: nothing at zero, out of range below it.
const SAMPLES: &[Sample] = &[
    (
        &[
            ("pool", 3025, &[
                (2912, 8, 4635585714919581016), (2920, 8, 4578046190233231745), (904, 8, 8), (2960, 8, 7),
                (872, 8, 1910), (856, 4, 50), (3016, 8, 9006), (272, 8, 15098), (288, 4, 5),
                (328, 8, 41331685), (344, 4, 4), (336, 8, 2),
            ]),
            ("extra_b", 864, &[
                (856, 4, 4294966764),
            ]),
            ("base_vault", 72, &[
                (64, 8, 13337),
            ]),
            ("quote_vault", 165, &[
                (64, 8, 984),
            ]),
        ],
        &[
            (1005, false, 0, 12),
            (5318, false, 9009, 63),
            (1929987857291922299, true, 9007, 0),
            (1, true, 9009, 83),
            (660, false, 9006, 7),
            (16, true, 0, 984),
        ],
    ),
    (
        &[
            ("pool", 3025, &[
                (2912, 8, 4636444512960621297), (2920, 8, 4577168485606307685), (904, 8, 8), (2960, 8, 8),
                (2984, 8, 19), (864, 8, 500000), (872, 8, 71), (856, 4, 50), (3016, 8, 9009), (272, 8, 1),
                (288, 4, 43), (280, 8, 1), (336, 8, 2),
            ]),
            ("extra_a", 864, &[
                (472, 8, 888260780412), (480, 8, 2668854612),
            ]),
            ("base_vault", 72, &[
                (64, 8, 6208996479421),
            ]),
            ("quote_vault", 165, &[
                (64, 8, 126400916),
            ]),
        ],
        &[
            (507747040934783, true, 0, 126400916),
            (7, true, 9069, 0),
            (14368596003907246, true, 9012, 126400916),
            (489162010, false, 0, 5103977),
            (0, true, 9010, 0),
            (168257394, false, 9069, 0),
        ],
    ),
    (
        &[
            ("pool", 2929, &[
                (2912, 8, 4638224744210980006), (2920, 8, 4575912333865056343), (904, 8, 269),
                (864, 8, 700000), (272, 8, 47), (288, 4, 44), (328, 8, 210210836279), (344, 4, 1521),
                (336, 8, 4294967295), (400, 4, 2), (392, 8, 4294967295), (440, 8, 780089), (456, 4, 595),
                (448, 8, 38654705666),
            ]),
            ("extra_a", 864, &[
                (856, 4, 4294967286), (480, 8, 816334259641),
            ]),
            ("extra_b", 864, &[
                (856, 4, 848),
            ]),
            ("base_vault", 72, &[
                (64, 8, 246458),
            ]),
            ("quote_vault", 165, &[
                (64, 8, 38),
            ]),
        ],
        &[
            (28693633399, false, 9005, 246458),
            (1, false, 9065, 0),
            (13352701, false, 0, 110227),
            (332, false, 9005, 2),
            (1242, false, 0, 10),
            (1, true, 9008, 38),
        ],
    ),
    (
        &[
            ("pool", 2929, &[
                (2912, 8, 4635915766176839113), (2920, 8, 4577680176869292407), (904, 8, 1), (864, 8, 199),
                (872, 8, 15348), (856, 4, 50), (272, 8, 39793), (280, 8, 4294967295), (328, 8, 187),
                (344, 4, 128), (336, 8, 4294967295), (384, 8, 2383102857), (400, 4, 12),
                (392, 8, 4294967295), (440, 8, 7634856), (448, 8, 4294967295), (496, 8, 2264277),
                (512, 4, 834), (504, 8, 2),
            ]),
            ("base_vault", 72, &[
                (64, 8, 43),
            ]),
            ("quote_vault", 165, &[
                (64, 8, 353457790283),
            ]),
        ],
        &[
            (888899810, true, 0, 78512453548),
            (4316633, false, 9006, 43),
            (0, true, 9005, 0),
            (2, false, 9008, 0),
            (6, false, 0, 0),
            (76, false, 9008, 0),
        ],
    ),
    (
        &[
            ("pool", 4096, &[
                (2912, 8, 4634964775643372117), (2920, 8, 4578859179374839753), (904, 8, 22), (2960, 8, 973),
                (2984, 8, 1), (864, 8, 700000), (872, 8, 11779), (856, 4, 50), (3016, 8, 9009), (272, 8, 2),
                (288, 4, 919), (280, 8, 4294967295), (328, 8, 81184345911), (344, 4, 177), (336, 8, 2),
                (384, 8, 14), (400, 4, 1110), (392, 8, 2), (440, 8, 112929), (448, 8, 4294967295),
                (496, 8, 6), (512, 4, 80), (504, 8, 1), (552, 8, 22), (568, 4, 164), (608, 8, 98),
                (616, 8, 38654705666), (4008, 8, 77233889), (4016, 8, 4069133), (4072, 8, 7294876792),
                (4080, 8, 608685),
            ]),
            ("extra_a", 864, &[
                (856, 4, 6), (472, 8, 24130), (480, 8, 3633168484),
            ]),
            ("extra_b", 864, &[
                (856, 4, 1217),
            ]),
            ("base_vault", 72, &[
                (64, 8, 153887909),
            ]),
            ("quote_vault", 165, &[
                (64, 8, 771536),
            ]),
        ],
        &[
            (178058, false, 0, 2380),
            (0, false, 9010, 0),
            (27401092307, false, 9009, 153887909),
            (5, false, 9010, 0),
            (12941, true, 9009, 771536),
            (16415656, true, 0, 771536),
        ],
    ),
    (
        &[
            ("pool", 4096, &[
                (2912, 8, 4631159418074022869), (2920, 8, 4582460430412229380), (904, 8, 3), (2960, 8, 24),
                (2984, 8, 2), (864, 8, 700000), (3016, 8, 9002), (272, 8, 1), (288, 4, 335),
                (4008, 8, 171115), (4016, 8, 14290), (4080, 8, 2),
            ]),
            ("base_vault", 72, &[
                (64, 8, 382),
            ]),
            ("quote_vault", 165, &[
                (64, 8, 30840510206713),
            ]),
        ],
        &[
            (3733, true, 0, 158155),
            (1713706, false, 9002, 382),
            (0, false, 9062, 0),
            (0, false, 9002, 0),
            (1175, true, 9062, 49781),
            (54025794419143289, true, 9062, 7249599),
        ],
    ),
    (
        &[
            ("pool", 2929, &[
                (2912, 8, 4641045045104051582), (2920, 8, 4572579659630158502), (904, 8, 2),
                (864, 8, 700000), (872, 8, 2), (856, 4, 50), (272, 8, 15077), (288, 4, 15), (280, 8, 2),
            ]),
            ("extra_a", 864, &[
                (480, 8, 789),
            ]),
            ("extra_b", 864, &[
                (856, 4, 4294967112),
            ]),
            ("base_vault", 72, &[
                (64, 8, 8952625371),
            ]),
            ("quote_vault", 165, &[
                (64, 8, 6),
            ]),
        ],
        &[
            (1414115, false, 9011, 7272),
            (421780170, true, 9008, 6),
            (1917, false, 0, 9),
            (846725, false, 9011, 4354),
            (86, false, 0, 0),
            (7, false, 9008, 0),
        ],
    ),
    (
        &[
            ("pool", 4657, &[
                (2912, 8, 10129370590252540963), (2920, 8, 14676834465489848890), (904, 8, 35), (2960, 8, 1),
                (864, 8, 700000), (872, 8, 2908), (856, 4, 5), (3016, 8, 9001), (272, 8, 219046302),
                (288, 4, 97), (280, 8, 2), (328, 8, 4), (344, 4, 5), (384, 8, 14024289379), (400, 4, 33),
                (392, 8, 2), (440, 8, 6127607263), (456, 4, 3847), (448, 8, 38654705666), (496, 8, 14984578),
                (512, 4, 28), (504, 8, 1), (552, 8, 198295), (568, 4, 10), (560, 8, 4294967295),
                (4008, 8, 31), (4016, 8, 17), (4648, 8, 2033383815), (4072, 8, 44220499), (4080, 8, 931),
                (4136, 8, 3), (4144, 8, 1287), (4200, 8, 7526166550), (4208, 8, 1), (4272, 8, 6258),
                (4328, 8, 664), (4336, 8, 1699943), (4392, 8, 118), (4400, 8, 1152), (4456, 8, 30075),
                (4464, 8, 26124), (4520, 8, 3300), (4584, 8, 5285400), (4592, 8, 757785323),
            ]),
            ("extra_b", 864, &[
                (856, 4, 4294967293),
            ]),
            ("base_vault", 72, &[
                (64, 8, 1193565),
            ]),
            ("quote_vault", 165, &[
                (64, 8, 3),
            ]),
        ],
        &[
            (3643934801, true, 9061, 0),
            (1, true, 9004, 0),
            (22727, true, 9004, 0),
            (7, false, 0, -1),
            (17466, false, 9001, -1),
            (25, true, 0, 0),
        ],
    ),
    (
        &[
            ("pool", 4657, &[
                (2912, 8, 4640875653170999613), (2920, 8, 4572730212307655950), (904, 8, 1), (2960, 8, 3),
                (864, 8, 500000), (856, 4, 50), (3016, 8, 9009), (272, 8, 222610694553), (288, 4, 7),
                (280, 8, 2), (328, 8, 53326), (336, 8, 38654705666), (384, 8, 45052310), (400, 4, 4),
                (392, 8, 2), (440, 8, 7113), (456, 4, 93), (448, 8, 2), (496, 8, 4), (512, 4, 1092),
                (504, 8, 1), (552, 8, 633688460483), (568, 4, 14), (560, 8, 38654705666), (608, 8, 325159),
                (624, 4, 2), (616, 8, 38654705666), (4008, 8, 51698407194), (4016, 8, 2568),
                (4648, 8, 60843543), (4072, 8, 1874178938), (4080, 8, 1353970), (4136, 8, 127864007),
                (4144, 8, 599737175), (4200, 8, 36), (4208, 8, 4814142), (4264, 8, 701137), (4272, 8, 11922),
                (4328, 8, 238718933), (4336, 8, 21864233), (4400, 8, 1), (4456, 8, 20869994056),
                (4464, 8, 118739), (4584, 8, 391923), (4592, 8, 346),
            ]),
            ("extra_a", 864, &[
            ]),
            ("extra_b", 864, &[
                (856, 4, 4294967292),
            ]),
            ("base_vault", 72, &[
                (64, 8, 1397571222609),
            ]),
            ("quote_vault", 165, &[
                (64, 8, 39529158062),
            ]),
        ],
        &[
            (2, true, 0, 379),
            (158014477456648, true, 0, 39529158062),
            (4623322, false, 9009, 24382),
            (192437, false, 9010, 1014),
            (1271, false, 0, 6),
            (90, true, 0, 17065),
        ],
    ),
    (
        &[
            ("pool", 3025, &[
                (2912, 8, 4638026705726746576), (2920, 8, 4576025518520525541), (904, 8, 139), (2960, 8, 53),
                (2984, 8, 41), (864, 8, 125), (872, 8, 4), (856, 4, 5), (3016, 8, 9007),
                (272, 8, 5797437065), (288, 4, 1291), (280, 8, 12884901889), (328, 8, 12280897754),
                (344, 4, 3), (336, 8, 4294967295), (384, 8, 117576246), (400, 4, 1), (392, 8, 2),
                (440, 8, 174), (456, 4, 247), (448, 8, 4294967295),
            ]),
            ("extra_a", 864, &[
                (856, 4, 4294967140), (480, 8, 412540),
            ]),
            ("base_vault", 72, &[
                (64, 8, 1017717),
            ]),
            ("quote_vault", 165, &[
                (64, 8, 3039311),
            ]),
        ],
        &[
            (28627, true, 9007, 3039311),
            (14852129, false, 9008, 125521),
            (208, true, 9007, 24610),
            (6724579, false, 9067, 0),
            (16745633625811016150, true, 9067, 0),
            (52, false, 9007, 0),
        ],
    ),
    (
        &[
            ("pool", 5328, &[
                (2912, 8, 4629780861952880941), (2920, 8, 4584506354076857018), (904, 8, 30), (2960, 8, 149),
                (864, 8, 1), (872, 8, 2589), (3016, 8, 9008), (4008, 8, 592), (4016, 8, 1131218),
                (4648, 8, 16059515569), (4656, 8, 77664132), (4080, 8, 30072724), (4712, 8, 699473),
                (4720, 8, 2955), (4136, 8, 229752), (4144, 8, 397962), (4776, 8, 31349007), (4784, 8, 206),
                (4200, 8, 28790), (4208, 8, 331), (4840, 8, 1946598717), (4848, 8, 11540), (4264, 8, 1305),
                (4904, 8, 208), (4328, 8, 351626316), (4336, 8, 248220), (4968, 8, 27102271),
                (4976, 8, 3314), (4400, 8, 1925116), (5032, 8, 448), (5040, 8, 664798939), (4456, 8, 2183),
                (4464, 8, 317225840), (5096, 8, 16317), (5104, 8, 499), (4520, 8, 1), (4528, 8, 301195),
                (5160, 8, 6576037), (4592, 8, 41), (5224, 8, 107106948), (5232, 8, 26567401),
                (5320, 4, 1000000), (5324, 4, 1000000),
            ]),
            ("extra_a", 864, &[
                (480, 8, 7),
            ]),
            ("base_vault", 72, &[
                (64, 8, 24155569),
            ]),
            ("quote_vault", 165, &[
                (64, 8, 19),
            ]),
        ],
        &[
            (61, true, 9009, 0),
            (28, false, 9008, 0),
            (55673, true, 0, 19),
            (128018641, false, 9008, 0),
            (62236357146, false, 9011, 24155569),
            (90766113, false, 9068, 0),
        ],
    ),
    (
        &[
            ("pool", 4096, &[
                (2912, 8, 4634763805018110213), (2920, 8, 4579165020187901726), (904, 8, 850), (2960, 8, 8),
                (2984, 8, 20), (864, 8, 1), (872, 8, 37), (856, 4, 5), (3016, 8, 9008), (272, 8, 10059911),
                (288, 4, 203), (280, 8, 12884901889), (328, 8, 16843728515), (344, 4, 3654), (336, 8, 1),
                (384, 8, 982387142), (400, 4, 19), (392, 8, 12884901889), (440, 8, 6), (456, 4, 1),
                (448, 8, 38654705666), (496, 8, 171), (512, 4, 482), (504, 8, 2), (4008, 8, 59370515038),
                (4016, 8, 1446), (4072, 8, 27769890), (4080, 8, 44),
            ]),
            ("extra_a", 864, &[
                (472, 8, 2115545), (480, 8, 949249),
            ]),
            ("base_vault", 72, &[
                (64, 8, 18),
            ]),
            ("quote_vault", 165, &[
                (64, 8, 8369277615808),
            ]),
        ],
        &[
            (8833509399364248, true, 9008, 152222639),
            (35, true, 9068, 0),
            (189, true, 9068, 0),
            (16118696, true, 9008, 152222639),
            (219, false, 9008, 3),
            (101648, false, 9008, 18),
        ],
    ),
];

fn account(len: usize, fields: Fields) -> Vec<u8> {
    let mut data = vec![0u8; len];
    for (offset, width, value) in fields {
        let bytes = value.to_le_bytes();
        for i in 0..*width as usize {
            data[offset + i] = bytes[i];
        }
    }
    data
}

#[test]
fn zerofi_samples() {
    for (k, (updates, quotes)) in SAMPLES.iter().enumerate() {
        let mut pool = create_protocol("zerofi").unwrap();
        for (role, len, fields) in updates.iter() {
            let data = account(*len, fields);
            assert!(pool.can_apply(role, &data));
            pool.apply_update(role, &data, 1000);
        }
        assert!(pool.is_ready());
        for (amount, b2q, slot, expected) in quotes.iter() {
            let direction = if *b2q { "B2Q" } else { "Q2B" };
            let got = match pool.try_quote_single(*amount, direction, *slot) {
                None => -1,
                Some(None) => 0,
                Some(Some(out)) => out as i128,
            };
            assert_eq!(got, *expected, "sample {k}: {amount} {direction} at {slot}");

            if let Some((base, quote)) = pool.vault_balances() {
                assert!(got <= if *b2q { quote } else { base } as i128, "sample {k}");
            }

            let tier = TierInput { micro_usd: *amount as u128, usd_e21: 0, base_amount: Some(*amount) };
            if let Some(rows) = pool.try_compute_quotes(*slot, &[tier]) {
                if !*b2q && *expected > 0 {
                    let row = rows.iter().find(|r| r.direction == "Q2B").unwrap();
                    assert_eq!((row.input_amount, row.output_amount as i128), (*amount, *expected), "sample {k}");
                }
            }
        }
    }
}
