//! Pools of sampled state and what they pay.
use amm_replay::protocols::create_protocol;
use amm_replay::protocols::quotes::TierInput;

type Fields = &'static [(usize, u8, u128)];
type Update = (&'static str, usize, Fields);
type Sample = (&'static [Update], &'static [(u64, bool, u64, i128)]);

/// Account updates by role, size and fields; then amounts with their direction,
/// their slot and what comes out: nothing at zero, out of range below it.
const SAMPLES: &[Sample] = &[
    (
        &[
            ("pool", 1024, &[
                (8, 8, 416589582), (16, 2, 5), (632, 8, 7), (128, 8, 78426504299811008),
                (144, 8, 12750791443887), (160, 8, 932486208), (168, 8, 932318), (176, 8, 34), (184, 8, 36),
                (192, 8, 932680), (208, 8, 3343), (216, 8, 936632), (224, 8, 3), (232, 8, 2677714),
                (240, 8, 999867), (256, 8, 34010566), (264, 8, 917333),
            ]),
            ("base_vault", 72, &[
                (64, 8, 7),
            ]),
            ("quote_vault", 165, &[
                (64, 8, 9),
            ]),
        ],
        &[
            (7865, false, 1000, 0),
            (82221, false, 1000, 0),
            (1927, false, 1000, 0),
            (5012845, true, 1000, 366531414),
            (1962499, true, 1000, 143494868),
            (308, false, 1000, 0),
        ],
    ),
    (
        &[
            ("pool", 1024, &[
                (0, 8, 138459), (8, 8, 3433113), (16, 2, 7), (632, 8, 193748), (128, 8, 240609711900045696),
                (144, 8, 4156108214016), (160, 8, 2), (168, 8, 902997), (176, 8, 27), (184, 8, 606245),
                (192, 8, 971967), (200, 8, 23), (640, 8, 3613072932), (648, 8, 959352), (664, 8, 1277),
                (672, 8, 925758), (680, 8, 1), (688, 8, 30462), (696, 8, 960582), (704, 8, 16),
                (712, 8, 3744301), (720, 8, 968773), (728, 8, 12), (736, 8, 58010442), (744, 8, 977301),
                (752, 8, 27), (760, 8, 9602), (768, 8, 956751),
            ]),
            ("base_vault", 72, &[
                (64, 8, 7),
            ]),
            ("quote_vault", 165, &[
                (64, 8, 9),
            ]),
        ],
        &[
            (2623484318, true, 1000, 0),
            (578135, false, 1000, 2305),
            (351, true, 1000, 0),
            (20, true, 1000, 0),
            (173440936, false, 1000, 691538),
            (279723, false, 1000, 1115),
        ],
    ),
    (
        &[
            ("pool", 1024, &[
                (0, 8, 3465734), (8, 8, 349484947), (16, 2, 9), (632, 8, 7), (128, 8, 12),
                (144, 8, 2183240424886), (160, 8, 1758313), (168, 8, 8762526), (176, 8, 2),
                (184, 8, 7155859), (192, 8, 911328), (200, 8, 4), (208, 8, 6), (216, 8, 1271835571838013),
                (224, 8, 118), (232, 8, 999), (240, 8, 140702252272397052), (248, 8, 15), (256, 8, 38144),
                (264, 8, 1039774333844504123), (280, 8, 13791794), (288, 8, 2629681), (296, 8, 111),
                (304, 8, 377739), (312, 8, 1007), (320, 8, 8), (640, 8, 1551884376), (648, 8, 201),
                (656, 8, 22), (664, 8, 7146904809), (672, 8, 306503605545), (680, 8, 13),
                (688, 8, 568779179), (696, 8, 132958810492), (704, 8, 20), (712, 8, 1189), (728, 8, 198),
                (736, 8, 21358), (744, 8, 10578242402), (752, 8, 165), (760, 8, 1459133),
                (768, 8, 11356164440), (776, 8, 22), (784, 8, 1781), (792, 8, 52497518300439774),
                (800, 8, 16), (808, 8, 271), (816, 8, 416605), (824, 8, 29),
            ]),
            ("base_vault", 72, &[
                (64, 8, 7),
            ]),
            ("quote_vault", 165, &[
                (64, 8, 9),
            ]),
        ],
        &[
            (7264617578, false, 1000, 3822795749065),
            (1293482, false, 1000, 0),
            (153002785780, false, 1000, 5151773156970),
            (1945603077464, true, 1000, 0),
            (1837425, false, 1000, 0),
            (3, true, 1000, 0),
        ],
    ),
    (
        &[
            ("pool", 664, &[
                (0, 8, 28), (8, 8, 988), (16, 2, 4), (632, 8, 1), (128, 8, 232665616554920160),
                (144, 8, 4298013667885), (160, 8, 9), (168, 8, 926786), (176, 8, 5), (184, 8, 5541),
                (192, 8, 945943), (200, 8, 60), (208, 8, 112178), (216, 8, 953745), (224, 8, 1),
                (232, 8, 31670571942), (240, 8, 904726), (248, 8, 157), (256, 8, 49713), (264, 8, 938703),
                (272, 8, 131), (280, 8, 1994607), (288, 8, 976139), (296, 8, 15), (640, 8, 107),
                (648, 8, 953640), (656, 8, 94),
            ]),
            ("base_vault", 72, &[
                (64, 8, 7),
            ]),
            ("quote_vault", 165, &[
                (64, 8, 9),
            ]),
        ],
        &[
            (41097, false, 1000, 0),
            (32480586, true, 1000, 6838442080),
            (1681, false, 1000, 0),
            (442, true, 1000, 97279),
            (660032, false, 1000, 0),
            (17594309612327973, true, 1000, 6667101844957),
        ],
    ),
    (
        &[
            ("pool", 1024, &[
                (8, 8, 71270474706), (16, 2, 7), (632, 8, 27229), (128, 8, 9836638249940782),
                (144, 8, 101660747766750), (160, 8, 1996181708), (168, 8, 937538), (176, 8, 1),
                (192, 8, 986515), (200, 8, 31), (208, 8, 10479), (216, 8, 917883), (232, 8, 571836937),
                (240, 8, 973441), (248, 8, 3), (648, 8, 964240), (656, 8, 13), (664, 8, 369),
                (672, 8, 937451), (680, 8, 7), (688, 8, 133111702190), (696, 8, 967924), (712, 8, 76),
                (720, 8, 937007), (728, 8, 181), (736, 8, 1286752), (744, 8, 938905), (752, 8, 6),
                (760, 8, 187778516), (768, 8, 947322), (792, 8, 933085), (800, 8, 116),
            ]),
            ("base_vault", 72, &[
                (64, 8, 7),
            ]),
            ("quote_vault", 165, &[
                (64, 8, 9),
            ]),
        ],
        &[
            (25058, true, 1000, 0),
            (2102272369209068524, false, 1000, 13116379485),
            (959155027120000, false, 1000, 13116379485),
            (445615493, false, 1000, 43848509),
            (0, false, 1000, 0),
            (54324441068, true, 1000, 0),
        ],
    ),
    (
        &[
            ("pool", 664, &[
                (0, 8, 746500497), (8, 8, 1128151), (16, 2, 1), (632, 8, 109699504440),
                (128, 8, 24277990573045504), (144, 8, 41189570322605), (160, 8, 107425), (168, 8, 911166),
                (176, 8, 1), (192, 8, 994712), (200, 8, 62), (208, 8, 15), (216, 8, 953118), (224, 8, 6),
                (640, 8, 28), (648, 8, 980551), (656, 8, 1),
            ]),
            ("base_vault", 72, &[
                (64, 8, 7),
            ]),
            ("quote_vault", 165, &[
                (64, 8, 9),
            ]),
        ],
        &[
            (185014, false, 1000, 0),
            (1250, true, 1000, 27651),
            (9, true, 1000, 199),
            (3053, true, 1000, 67536),
            (150799, true, 1000, 2376725),
            (1306, true, 1000, 28890),
        ],
    ),
    (
        &[
            ("pool", 1024, &[
                (0, 8, 1051364542), (8, 8, 7673855), (632, 8, 178), (128, 8, 147362826288226656),
                (144, 8, 6785971911559), (160, 8, 1246556510), (168, 8, 972730), (176, 8, 158),
                (184, 8, 4313), (192, 8, 908281), (200, 8, 60), (208, 8, 54565), (216, 8, 998379),
                (224, 8, 8), (232, 8, 206), (240, 8, 930725), (248, 8, 14), (256, 8, 3008496),
                (264, 8, 917194), (280, 8, 178768), (288, 8, 975133), (304, 8, 27), (312, 8, 916356),
                (320, 8, 152), (328, 8, 128089398), (336, 8, 951098), (344, 8, 61), (352, 8, 112799),
                (360, 8, 969560), (640, 8, 900251), (648, 8, 919765), (656, 8, 43), (664, 8, 12281),
                (672, 8, 915214), (680, 8, 1), (688, 8, 1762216882), (696, 8, 927721), (704, 8, 2),
                (712, 8, 5944138), (720, 8, 930804), (728, 8, 5), (736, 8, 3338840), (744, 8, 950560),
                (752, 8, 8), (760, 8, 2717446), (768, 8, 938785), (776, 8, 61), (784, 8, 4341030),
                (792, 8, 904764), (800, 8, 5), (808, 8, 810), (816, 8, 908294),
            ]),
            ("base_vault", 72, &[
                (64, 8, 7),
            ]),
            ("quote_vault", 165, &[
                (64, 8, 9),
            ]),
        ],
        &[
            (6, true, 1000, 860),
            (1753241666368012765, true, 1000, 197019020548),
            (1025842898306899660, false, 1000, 11202758),
            (1015611904783, true, 1000, 197019020548),
            (72, true, 1000, 10320),
            (636485386229575696, true, 1000, 197019020548),
        ],
    ),
    (
        &[
            ("pool", 664, &[
                (8, 8, 1), (632, 8, 3877717), (128, 8, 375999383410160576), (144, 8, 2659578829439),
                (160, 8, 5), (168, 8, 902849), (176, 8, 60), (184, 8, 60), (192, 8, 987630), (200, 8, 9),
                (208, 8, 362100860), (216, 8, 931450), (232, 8, 2927), (240, 8, 903267), (248, 8, 5),
                (256, 8, 19), (264, 8, 952569), (272, 8, 21), (640, 8, 958), (648, 8, 947377), (656, 8, 1),
            ]),
            ("base_vault", 72, &[
                (64, 8, 7),
            ]),
            ("quote_vault", 165, &[
                (64, 8, 9),
            ]),
        ],
        &[
            (813529, true, 1000, 284919112),
            (2, false, 1000, 0),
            (0, true, 1000, 0),
            (202426832730387, true, 1000, 126817662682),
            (45, true, 1000, 16582),
            (1916, true, 1000, 672253),
        ],
    ),
    (
        &[
            ("pool", 1024, &[
                (0, 8, 3), (16, 2, 13), (632, 8, 29922294), (128, 8, 152975138084665920),
                (144, 8, 6537009951555),
            ]),
            ("base_vault", 72, &[
                (64, 8, 7),
            ]),
            ("quote_vault", 165, &[
                (64, 8, 9),
            ]),
        ],
        &[
            (1424, false, 1000, 0),
            (8913887, true, 1000, 0),
            (5, false, 1000, 0),
            (13, false, 1000, 0),
            (8841, true, 1000, 0),
            (175949873579115, true, 1000, 0),
        ],
    ),
    (
        &[
            ("pool", 768, &[
                (8, 8, 4791838418), (16, 2, 7), (632, 8, 24), (128, 8, 298742089032763),
                (144, 8, 2589313788135), (160, 8, 4647090031), (168, 8, 1497169719), (176, 8, 1),
                (184, 8, 129891843), (192, 8, 592346006), (640, 8, 1573), (648, 8, 26715405), (656, 8, 14),
                (664, 8, 7428363), (672, 8, 294), (680, 8, 49), (688, 8, 398316), (704, 8, 10),
                (712, 8, 147), (720, 8, 3), (728, 8, 3), (736, 8, 1), (744, 8, 44), (752, 8, 17),
            ]),
            ("base_vault", 72, &[
                (64, 8, 7),
            ]),
            ("quote_vault", 165, &[
                (64, 8, 9),
            ]),
        ],
        &[
            (2301, true, 1000, 0),
            (86, true, 1000, 0),
            (74240748254, true, 1000, 0),
            (0, true, 1000, 0),
            (1828528, false, 1000, 108),
            (67, true, 1000, 0),
        ],
    ),
    (
        &[
            ("pool", 768, &[
                (8, 8, 114328635293), (16, 2, 2), (632, 8, 17), (128, 8, 265156614358569120),
                (144, 8, 3771356043367), (160, 8, 228), (168, 8, 956958), (176, 8, 7), (184, 8, 664954),
                (192, 8, 958435), (200, 8, 3), (640, 8, 23021928), (648, 8, 957858), (664, 8, 545),
                (672, 8, 962037), (680, 8, 76), (696, 8, 913574), (704, 8, 3), (712, 8, 46003003),
                (720, 8, 906856), (728, 8, 7), (744, 8, 904308), (752, 8, 3),
            ]),
            ("base_vault", 72, &[
                (64, 8, 7),
            ]),
            ("quote_vault", 165, &[
                (64, 8, 9),
            ]),
        ],
        &[
            (15575631, true, 1000, 0),
            (1242, false, 1000, 4),
            (12014, true, 1000, 0),
            (4, true, 1000, 0),
            (73, false, 1000, 0),
            (26392736143223, true, 1000, 0),
        ],
    ),
    (
        &[
            ("pool", 1024, &[
                (8, 8, 500328), (16, 2, 481), (632, 8, 2676208648), (128, 8, 2837636228400),
                (144, 8, 2498840985402), (160, 8, 2599881578), (168, 8, 6822139), (176, 8, 1), (640, 8, 1),
                (648, 8, 212659255910), (656, 8, 121), (664, 8, 11610786785), (672, 8, 2212137722367267),
                (680, 8, 171), (688, 8, 4), (696, 8, 209369), (704, 8, 23), (712, 8, 90280889446),
                (720, 8, 19070472), (728, 8, 1), (744, 8, 20420897393793), (752, 8, 19),
            ]),
            ("base_vault", 72, &[
                (64, 8, 7),
            ]),
            ("quote_vault", 165, &[
                (64, 8, 9),
            ]),
        ],
        &[
            (237, false, 1000, 1310083956),
            (1, true, 1000, 0),
            (2884317, false, 1000, 15943870997307),
            (554792240, true, 1000, 10740083),
            (43, false, 1000, 237694557),
            (3332761765942, false, 1000, 49388390269410903),
        ],
    ),
];

fn account(len: usize, fields: Fields) -> Vec<u8> {
    let mut data = vec![0u8; len];
    for (offset, width, value) in fields {
        let bytes = value.to_le_bytes();
        for i in 0..*width as usize {
            data[offset + i] = bytes[i];
        }
    }
    data
}

#[test]
fn tesserav_samples() {
    for (k, (updates, quotes)) in SAMPLES.iter().enumerate() {
        let mut pool = create_protocol("tesserav").unwrap();
        for (role, len, fields) in updates.iter() {
            let data = account(*len, fields);
            assert!(pool.can_apply(role, &data));
            pool.apply_update(role, &data, 1000);
        }
        assert!(pool.is_ready());
        for (amount, b2q, slot, expected) in quotes.iter() {
            let direction = if *b2q { "B2Q" } else { "Q2B" };
            let got = match pool.try_quote_single(*amount, direction, *slot) {
                None => -1,
                Some(None) => 0,
                Some(Some(out)) => out as i128,
            };
            assert_eq!(got, *expected, "sample {k}: {amount} {direction} at {slot}");

            let tier = TierInput { micro_usd: *amount as u128, usd_e21: 0, base_amount: Some(*amount) };
            if let Some(rows) = pool.try_compute_quotes(*slot, &[tier]) {
                if !*b2q && *expected > 0 {
                    let row = rows.iter().find(|r| r.direction == "Q2B").unwrap();
                    assert_eq!((row.input_amount, row.output_amount as i128), (*amount, *expected), "sample {k}");
                }
            }
        }
    }
}
