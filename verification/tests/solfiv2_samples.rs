//! Pools of sampled state and what they pay.
use amm_replay::protocols::create_protocol;
use amm_replay::protocols::quotes::TierInput;

type Fields = &'static [(usize, u8, u128)];
type Update = (&'static str, usize, Fields);
type Sample = (&'static [Update], &'static [(u64, bool, u64, i128)]);

/// Account updates by role, size and fields; then amounts with their direction,
/// their slot and what comes out: nothing at zero, out of range below it.
const SAMPLES: &[Sample] = &[
    (
        &[
            ("pool", 1460, &[
                (16, 8, 5014), (1296, 8, 20639), (1288, 8, 38), (1312, 8, 106121), (1320, 8, 43914),
                (1328, 8, 9223372036854775813), (1352, 8, 5014), (736, 8, 19648), (744, 8, 175197058),
                (752, 8, 175199184), (760, 8, 175330196), (768, 8, 175330210), (776, 8, 242281784),
                (784, 8, 242281806), (792, 8, 940), (800, 8, 73), (816, 8, 1), (824, 8, 442), (832, 8, 6),
                (840, 8, 6), (848, 8, 1), (872, 8, 1), (888, 8, 1722), (896, 8, 14087584),
                (904, 8, 14090772), (912, 8, 14273526), (928, 8, 3779), (944, 8, 5), (968, 8, 102),
                (976, 8, 22), (984, 8, 572), (1000, 8, 1), (1064, 8, 65), (1008, 8, 2), (1072, 8, 1575),
                (1016, 8, 3), (1080, 8, 41), (1024, 8, 6), (1032, 8, 9), (1040, 8, 11), (1104, 8, 2427),
                (1048, 8, 13), (1056, 8, 14), (1120, 8, 1), (1128, 8, 1099511627776), (1136, 8, 4),
                (1200, 8, 590), (1144, 8, 4), (1152, 8, 5), (1216, 8, 3), (1160, 8, 7), (1168, 8, 11),
                (1232, 8, 26), (1176, 8, 13), (1240, 8, 4), (1184, 8, 13), (1192, 8, 17), (1256, 8, 248),
            ]),
            ("oracle", 32, &[
                (8, 1, 140), (9, 1, 146), (10, 1, 230), (11, 1, 119), (12, 1, 136), (13, 1, 34),
                (14, 1, 221), (15, 1, 68), (16, 1, 34), (17, 1, 70), (18, 1, 170), (19, 1, 255), (21, 1, 51),
                (22, 1, 204), (23, 1, 102), (0, 1, 6),
            ]),
            ("base_vault", 165, &[
                (64, 8, 136322604),
            ]),
            ("quote_vault", 165, &[
                (64, 8, 5390665),
            ]),
        ],
        &[
            (5261711, true, 5014, -1),
            (649, false, 5044, -1),
            (14800688, true, 5014, -1),
            (6, true, 5044, -1),
            (24242, false, 5013, -1),
            (2398418990429803582, true, 6015, 0),
        ],
    ),
    (
        &[
            ("pool", 1360, &[
                (16, 8, 5007), (1296, 8, 139039), (1304, 8, 5), (1288, 8, 31), (1320, 8, 188),
                (1328, 8, 37497), (1352, 8, 5006), (720, 8, 9196), (736, 8, 977333182), (744, 8, 977837951),
                (752, 8, 977837958), (760, 8, 978005155), (768, 8, 978005156), (776, 8, 984187606),
                (792, 8, 11), (800, 8, 1), (808, 8, 115), (816, 8, 1), (824, 8, 60), (832, 8, 123),
                (840, 8, 73), (872, 8, 6361524), (880, 8, 6361525), (888, 8, 6361652), (896, 8, 55230801),
                (904, 8, 291734514), (912, 8, 9241511013), (920, 8, 9241511013), (928, 8, 2), (936, 8, 7),
                (944, 8, 231), (952, 8, 99), (960, 8, 337), (968, 8, 32), (984, 8, 9), (1000, 8, 1),
                (1064, 8, 626), (1008, 8, 2), (1072, 8, 43), (1016, 8, 4), (1080, 8, 952), (1024, 8, 7),
                (1088, 8, 114), (1032, 8, 8), (1096, 8, 12), (1040, 8, 10), (1104, 8, 5), (1048, 8, 13),
                (1112, 8, 3301), (1056, 8, 14), (1120, 8, 3), (1128, 8, 1), (1136, 8, 4), (1200, 8, 6),
                (1144, 8, 5), (1208, 8, 1), (1152, 8, 7), (1160, 8, 7), (1224, 8, 13), (1168, 8, 8),
                (1176, 8, 11), (1240, 8, 14), (1184, 8, 12), (1248, 8, 24), (1192, 8, 16), (1256, 8, 86),
                (1264, 8, 2),
            ]),
            ("oracle", 64, &[
                (8, 1, 172), (9, 1, 88), (10, 1, 239), (11, 1, 119), (12, 1, 136), (13, 1, 34), (14, 1, 221),
                (15, 1, 68), (16, 1, 52), (17, 1, 70), (18, 1, 170), (19, 1, 255), (21, 1, 51), (22, 1, 204),
                (23, 1, 102), (32, 1, 213), (33, 1, 119), (34, 1, 17), (35, 1, 238), (36, 1, 34),
                (37, 1, 221), (38, 1, 136), (39, 1, 68), (56, 1, 118), (57, 1, 137), (58, 1, 153),
                (59, 1, 170), (60, 1, 182), (61, 1, 204), (62, 1, 221), (63, 1, 238), (0, 1, 5),
                (24, 8, 9196),
            ]),
            ("base_vault", 165, &[
                (64, 8, 600615037),
            ]),
            ("quote_vault", 165, &[
                (64, 8, 57938609),
            ]),
        ],
        &[
            (18701209810, false, 5037, 600615037),
            (142481, true, 5007, 12026),
            (60, false, 5007, 709),
            (1786, false, 6008, 0),
            (10, true, 5009, 0),
            (1462, true, 5009, 122),
        ],
    ),
    (
        &[
            ("pool", 1360, &[
                (16, 8, 5005), (1296, 8, 40268), (1336, 8, 14625), (1312, 8, 532), (1320, 8, 7430),
                (1328, 8, 40), (1352, 8, 5005), (1284, 4, 9), (720, 8, 5), (736, 8, 27), (744, 8, 16449972),
                (768, 8, 17006095), (776, 8, 17006096), (784, 8, 68561373), (800, 8, 6), (816, 8, 143),
                (824, 8, 2), (832, 8, 21), (840, 8, 3751), (848, 8, 1), (872, 8, 511), (880, 8, 7902639153),
                (896, 8, 9145927285), (904, 8, 11545847512), (912, 8, 18584745489), (920, 8, 28276396701),
                (928, 8, 106), (936, 8, 13), (944, 8, 3), (952, 8, 134), (960, 8, 9), (968, 8, 25),
                (976, 8, 34), (984, 8, 1), (1064, 8, 193), (1072, 8, 248), (1080, 8, 234), (1024, 8, 3),
                (1088, 8, 205), (1032, 8, 7), (1040, 8, 7), (1104, 8, 341), (1048, 8, 7), (1112, 8, 117),
                (1056, 8, 10), (1120, 8, 3782), (1128, 8, 5), (1136, 8, 2), (1200, 8, 3), (1144, 8, 5),
                (1208, 8, 1), (1152, 8, 8), (1216, 8, 67), (1160, 8, 10), (1168, 8, 13), (1232, 8, 15),
                (1176, 8, 15), (1240, 8, 2), (1184, 8, 15), (1192, 8, 16),
            ]),
            ("oracle", 32, &[
                (8, 1, 89), (9, 1, 18), (10, 1, 68), (11, 1, 126), (12, 1, 136), (13, 1, 34), (14, 1, 221),
                (15, 1, 68), (16, 1, 43), (17, 1, 70), (18, 1, 170), (19, 1, 255), (21, 1, 51), (22, 1, 204),
                (23, 1, 102), (0, 1, 8), (24, 8, 5),
            ]),
            ("orderbook", 4461, &[
                (88, 4, 1), (4416, 4, 1593835520),
            ]),
            ("base_vault", 165, &[
                (64, 8, 4463),
            ]),
            ("quote_vault", 165, &[
                (64, 8, 794),
            ]),
        ],
        &[
            (3774123311, true, 6006, 0),
            (564326, true, 6006, 0),
            (5223416254, false, 5035, 4463),
            (14988, false, 5004, 4463),
            (632425, true, 5005, 794),
            (3635, true, 5005, 588),
        ],
    ),
    (
        &[
            ("pool", 1360, &[
                (16, 8, 5008), (1296, 8, 103538), (1304, 8, 52), (1288, 8, 701), (1336, 8, 72), (1312, 8, 1),
                (1320, 8, 178882), (1328, 8, 9223372036854775813), (1352, 8, 5007), (1284, 4, 10),
                (720, 8, 2367336), (736, 8, 1), (752, 8, 19971607219), (760, 8, 19971607245),
                (768, 8, 19971608259), (776, 8, 19971608296), (784, 8, 20013272520), (792, 8, 1028176019335),
                (800, 8, 6387370201570167), (808, 8, 21650776422622114), (816, 8, 89228002465554),
                (824, 8, 27), (832, 8, 6082384), (840, 8, 1619350649184699), (848, 8, 129739817869500),
                (872, 8, 2477), (880, 8, 3403116145), (888, 8, 3403116170), (896, 8, 3422231591),
                (928, 8, 117511), (936, 8, 2370305870609), (944, 8, 60751312833315), (952, 8, 3403640),
                (960, 8, 48495170), (968, 8, 591830), (976, 8, 4124464350306), (984, 8, 43), (1000, 8, 2),
                (1064, 8, 14), (1008, 8, 4), (1072, 8, 57285481882), (1016, 8, 7), (1080, 8, 4471796),
                (1024, 8, 7), (1088, 8, 562887739523455), (1032, 8, 10), (1096, 8, 94120275), (1040, 8, 10),
                (1104, 8, 647298730620541), (1048, 8, 10), (1112, 8, 10082), (1056, 8, 10),
                (1120, 8, 275558118), (1128, 8, 5), (1136, 8, 3), (1200, 8, 14043603241982934727),
                (1144, 8, 4), (1208, 8, 27706880327243), (1152, 8, 6), (1216, 8, 1184086815), (1160, 8, 8),
                (1224, 8, 4689824973209160), (1168, 8, 12), (1232, 8, 2613), (1176, 8, 15), (1240, 8, 281),
                (1184, 8, 19), (1248, 8, 12), (1192, 8, 20), (1256, 8, 546102822919455), (1264, 8, 1),
            ]),
            ("oracle", 64, &[
                (8, 1, 80), (9, 1, 17), (10, 1, 238), (11, 1, 119), (12, 1, 136), (13, 1, 34), (14, 1, 221),
                (15, 1, 68), (16, 1, 42), (17, 1, 70), (18, 1, 170), (19, 1, 255), (21, 1, 51), (22, 1, 204),
                (23, 1, 102), (32, 1, 64), (33, 1, 66), (34, 1, 17), (35, 1, 238), (36, 1, 34), (37, 1, 221),
                (38, 1, 136), (39, 1, 68), (56, 1, 127), (57, 1, 136), (58, 1, 153), (59, 1, 170),
                (60, 1, 157), (61, 1, 204), (62, 1, 221), (63, 1, 238), (0, 1, 8), (24, 8, 2367336),
            ]),
            ("orderbook", 4461, &[
                (88, 4, 2), (4437, 4, 2139095040),
            ]),
            ("base_vault", 165, &[
                (64, 8, 1627657),
            ]),
            ("quote_vault", 165, &[
                (64, 8, 426202),
            ]),
        ],
        &[
            (3288727762655, true, 5008, -1),
            (2, true, 6009, 0),
            (57, true, 5010, -1),
            (259199, false, 5007, -1),
            (54, false, 5007, -1),
            (2, true, 6009, 0),
        ],
    ),
    (
        &[
            ("pool", 1360, &[
                (16, 8, 5007), (1296, 8, 1), (1336, 8, 17), (1312, 8, 3731), (1320, 8, 137431),
                (1328, 8, 10000007), (1352, 8, 5007), (720, 8, 61), (736, 8, 3834115669),
                (744, 8, 6518368977), (752, 8, 6518404564), (760, 8, 48175462659), (768, 8, 48175561402),
                (784, 8, 48175581455), (792, 8, 62), (808, 8, 4), (816, 8, 1), (824, 8, 19), (840, 8, 71),
                (848, 8, 1), (872, 8, 29), (888, 8, 22996942703), (896, 8, 22997663495),
                (904, 8, 22997663709), (912, 8, 22997663766), (920, 8, 22997667406), (928, 8, 6),
                (936, 8, 617), (944, 8, 4), (952, 8, 856), (960, 8, 166), (968, 8, 8), (976, 8, 3056),
                (984, 8, 1), (1000, 8, 2), (1064, 8, 49), (1008, 8, 5), (1072, 8, 2), (1016, 8, 9),
                (1024, 8, 13), (1088, 8, 248), (1032, 8, 16), (1096, 8, 13), (1040, 8, 16), (1048, 8, 17),
                (1112, 8, 618), (1056, 8, 17), (1120, 8, 622), (1128, 8, 5), (1136, 8, 2), (1200, 8, 14),
                (1144, 8, 3), (1208, 8, 2), (1152, 8, 5), (1216, 8, 29), (1160, 8, 5), (1224, 8, 22),
                (1168, 8, 8), (1232, 8, 304), (1176, 8, 10), (1240, 8, 67), (1184, 8, 12), (1248, 8, 40),
                (1192, 8, 13), (1256, 8, 61), (1264, 8, 9),
            ]),
            ("oracle", 200, &[
                (8, 1, 33), (9, 1, 205), (10, 1, 236), (11, 1, 119), (12, 1, 136), (13, 1, 34), (14, 1, 221),
                (15, 1, 68), (16, 1, 43), (17, 1, 70), (18, 1, 170), (19, 1, 255), (21, 1, 51), (22, 1, 204),
                (23, 1, 102), (32, 1, 152), (33, 1, 119), (34, 1, 17), (35, 1, 238), (36, 1, 34),
                (37, 1, 221), (38, 1, 136), (39, 1, 68), (56, 1, 197), (57, 1, 131), (58, 1, 153),
                (59, 1, 170), (60, 1, 187), (61, 1, 204), (62, 1, 221), (63, 1, 238), (0, 1, 5), (24, 8, 61),
            ]),
            ("orderbook", 4472, &[
                (88, 4, 1), (4416, 4, 2143289344),
            ]),
            ("base_vault", 165, &[
                (64, 8, 33098762029),
            ]),
            ("quote_vault", 165, &[
                (64, 8, 7390317991),
            ]),
        ],
        &[
            (9069116, true, 5037, 1700123),
            (183, false, 5006, 975),
            (66, true, 5007, 12),
            (1, false, 5009, 4),
            (143344, true, 5037, 26871),
            (83, true, 5007, 15),
        ],
    ),
    (
        &[
            ("pool", 1360, &[
                (16, 8, 5000), (1296, 8, 2010), (1304, 8, 8012), (1288, 8, 1880), (1336, 8, 22),
                (1312, 8, 826), (1320, 8, 688), (1328, 8, 9223372036854775813), (1352, 8, 5002),
                (1280, 4, 6), (720, 8, 519185), (736, 8, 28), (744, 8, 2749953157), (752, 8, 2749953157),
                (760, 8, 2811932347), (768, 8, 2811932472), (776, 8, 2823409234), (784, 8, 2823412423),
                (792, 8, 4), (808, 8, 39), (816, 8, 235), (824, 8, 10), (832, 8, 3), (840, 8, 3),
                (872, 8, 9218094), (880, 8, 9218095), (888, 8, 9218830), (896, 8, 9238491),
                (904, 8, 971136472), (912, 8, 971189226), (920, 8, 971517826), (928, 8, 122), (936, 8, 7),
                (944, 8, 58), (952, 8, 21), (960, 8, 197), (976, 8, 3), (1000, 8, 1), (1064, 8, 3),
                (1008, 8, 4), (1072, 8, 203), (1016, 8, 8), (1080, 8, 1124), (1024, 8, 8), (1088, 8, 946),
                (1032, 8, 9), (1040, 8, 12), (1104, 8, 14), (1048, 8, 13), (1112, 8, 863), (1056, 8, 17),
                (1120, 8, 1), (1128, 8, 1), (1136, 8, 2), (1200, 8, 1), (1144, 8, 6), (1208, 8, 2),
                (1152, 8, 10), (1216, 8, 8), (1160, 8, 14), (1168, 8, 15), (1232, 8, 394), (1176, 8, 16),
                (1184, 8, 17), (1248, 8, 3), (1192, 8, 18), (1264, 8, 2),
            ]),
            ("oracle", 168, &[
                (8, 1, 31), (9, 1, 123), (10, 1, 237), (11, 1, 119), (12, 1, 136), (13, 1, 34), (14, 1, 221),
                (15, 1, 68), (16, 1, 23), (17, 1, 88), (18, 1, 170), (19, 1, 255), (21, 1, 51), (22, 1, 204),
                (23, 1, 102), (32, 1, 83), (33, 1, 47), (34, 1, 17), (35, 1, 238), (36, 1, 34), (37, 1, 221),
                (38, 1, 136), (39, 1, 68), (56, 1, 125), (57, 1, 136), (58, 1, 153), (59, 1, 170),
                (60, 1, 10), (61, 1, 200), (62, 1, 221), (63, 1, 238), (0, 1, 5), (24, 8, 519185),
            ]),
            ("orderbook", 50, &[
            ]),
            ("base_vault", 165, &[
                (64, 8, 157425748809),
            ]),
            ("quote_vault", 165, &[
                (64, 8, 35410396407),
            ]),
        ],
        &[
            (26, true, 6001, 0),
            (3414, true, 5002, 0),
            (992576, false, 4999, 0),
            (212578, true, 4999, 0),
            (92, true, 5000, 0),
            (2768, true, 5000, 0),
        ],
    ),
    (
        &[
            ("pool", 1360, &[
                (16, 8, 5012), (1296, 8, 175676), (1288, 8, 10), (1336, 8, 59), (1312, 8, 98268),
                (1320, 8, 488), (1328, 8, 9223372036854775813), (1352, 8, 5014), (720, 8, 919256),
                (736, 8, 495471), (744, 8, 777661257), (752, 8, 999626516), (760, 8, 999626525),
                (768, 8, 999626698), (776, 8, 999627066), (784, 8, 999627069), (792, 8, 184), (816, 8, 3),
                (832, 8, 49), (848, 8, 59), (872, 8, 597231849), (880, 8, 597232269), (896, 8, 953081595),
                (904, 8, 954111245), (920, 8, 1033768057), (928, 8, 9), (936, 8, 451), (944, 8, 1),
                (952, 8, 13), (960, 8, 85), (968, 8, 1202), (976, 8, 1), (984, 8, 324), (1000, 8, 2),
                (1064, 8, 2207), (1008, 8, 4), (1072, 8, 59), (1016, 8, 6), (1080, 8, 256), (1024, 8, 10),
                (1088, 8, 2), (1032, 8, 11), (1096, 8, 255), (1040, 8, 12), (1104, 8, 483), (1048, 8, 12),
                (1112, 8, 675), (1056, 8, 13), (1120, 8, 340), (1128, 8, 1), (1136, 8, 1), (1200, 8, 73),
                (1144, 8, 4), (1208, 8, 683), (1152, 8, 6), (1216, 8, 1), (1160, 8, 8), (1224, 8, 7),
                (1168, 8, 8), (1232, 8, 124), (1176, 8, 9), (1240, 8, 7), (1184, 8, 13), (1248, 8, 139),
                (1192, 8, 17), (1256, 8, 1), (1264, 8, 2),
            ]),
            ("oracle", 200, &[
                (8, 1, 204), (9, 1, 181), (10, 1, 247), (11, 1, 125), (12, 1, 136), (13, 1, 34),
                (14, 1, 221), (15, 1, 68), (16, 1, 46), (17, 1, 70), (18, 1, 170), (19, 1, 255), (21, 1, 51),
                (22, 1, 204), (23, 1, 102), (32, 1, 254), (33, 1, 117), (34, 1, 17), (35, 1, 238),
                (36, 1, 34), (37, 1, 221), (38, 1, 136), (39, 1, 68), (56, 1, 119), (57, 1, 136),
                (58, 1, 153), (59, 1, 170), (60, 1, 124), (61, 1, 248), (62, 1, 221), (63, 1, 238),
                (0, 1, 8), (24, 8, 919256),
            ]),
            ("orderbook", 4461, &[
                (88, 4, 2), (4437, 4, 1593835520),
            ]),
            ("base_vault", 165, &[
                (64, 8, 254990001),
            ]),
            ("quote_vault", 165, &[
                (64, 8, 38476509),
            ]),
        ],
        &[
            (1223, false, 5012, -1),
            (6, true, 6013, 0),
            (396416, false, 6013, 0),
            (0, true, 5014, 0),
            (8, true, 5042, -1),
            (1410302, false, 5011, -1),
        ],
    ),
    (
        &[
            ("pool", 1368, &[
                (16, 8, 5001), (1296, 8, 53749), (1304, 8, 370919042), (1288, 8, 10220), (1336, 8, 11293),
                (1312, 8, 198714), (1320, 8, 6158), (1328, 8, 9223372036854775813), (1352, 8, 5003),
                (1284, 4, 6), (720, 8, 5), (736, 8, 1101007), (744, 8, 61786476), (752, 8, 61786478),
                (760, 8, 160034772), (768, 8, 160823181), (776, 8, 160823184), (784, 8, 225877691),
                (792, 8, 62), (808, 8, 88), (816, 8, 1), (824, 8, 4), (832, 8, 10), (840, 8, 60),
                (848, 8, 7), (880, 8, 7268672), (888, 8, 12055758510), (896, 8, 12093796038),
                (904, 8, 12093796039), (912, 8, 12093796070), (920, 8, 46242973286), (928, 8, 5),
                (944, 8, 5), (960, 8, 104), (968, 8, 101), (976, 8, 1), (984, 8, 1199), (1000, 8, 1),
                (1008, 8, 3), (1016, 8, 6), (1080, 8, 9), (1024, 8, 8), (1088, 8, 18), (1032, 8, 11),
                (1096, 8, 1), (1040, 8, 13), (1104, 8, 1836), (1048, 8, 13), (1112, 8, 2), (1056, 8, 15),
                (1120, 8, 2), (1128, 8, 1), (1136, 8, 4), (1200, 8, 4), (1144, 8, 5), (1208, 8, 7),
                (1152, 8, 5), (1216, 8, 108), (1160, 8, 7), (1224, 8, 1674), (1168, 8, 9), (1232, 8, 13),
                (1176, 8, 12), (1240, 8, 1800), (1184, 8, 13), (1248, 8, 22), (1192, 8, 16), (1256, 8, 5),
                (1264, 8, 1),
            ]),
            ("oracle", 200, &[
                (9, 1, 145), (10, 1, 252), (11, 1, 119), (12, 1, 136), (13, 1, 34), (14, 1, 221),
                (15, 1, 68), (16, 1, 49), (17, 1, 70), (18, 1, 170), (19, 1, 255), (21, 1, 51), (22, 1, 204),
                (23, 1, 102), (32, 1, 164), (33, 1, 119), (34, 1, 17), (35, 1, 238), (36, 1, 34),
                (37, 1, 221), (38, 1, 136), (39, 1, 68), (56, 1, 240), (57, 1, 141), (58, 1, 153),
                (59, 1, 170), (60, 1, 185), (61, 1, 204), (62, 1, 221), (63, 1, 238), (0, 1, 6),
                (24, 8, 252043869),
            ]),
            ("orderbook", 4462, &[
                (88, 4, 1), (4416, 4, 2139095040),
            ]),
            ("base_vault", 165, &[
                (64, 8, 84971533599),
            ]),
            ("quote_vault", 165, &[
                (64, 8, 9252181043),
            ]),
        ],
        &[
            (135243, true, 5000, -1),
            (4535, true, 6002, 0),
            (16105, true, 5031, -1),
            (59467, true, 5031, -1),
            (5372588586, false, 5001, -1),
            (259089, false, 5001, -1),
        ],
    ),
    (
        &[
            ("pool", 1460, &[
                (16, 8, 5017), (1296, 8, 242028), (1304, 8, 1652318431), (1312, 8, 101812),
                (1320, 8, 953876), (1328, 8, 10000007), (1352, 8, 5017), (720, 8, 408763), (736, 8, 77),
                (744, 8, 147055067), (752, 8, 147063576), (760, 8, 147077545), (768, 8, 708294100),
                (776, 8, 708294104), (784, 8, 708294769), (792, 8, 2), (800, 8, 4008812955882842761),
                (808, 8, 13339549819133328879), (816, 8, 7974346167), (832, 8, 14865), (840, 8, 2386127),
                (848, 8, 669179931), (872, 8, 27), (880, 8, 29), (888, 8, 3353113885), (896, 8, 3543116704),
                (904, 8, 4280132602), (912, 8, 4280137838), (920, 8, 4312963244),
                (928, 8, 402745793650011705), (936, 8, 94457689), (944, 8, 4), (952, 8, 3510713585324147877),
                (960, 8, 18950), (968, 8, 214714668727219651), (984, 8, 440079807), (1000, 8, 4),
                (1064, 8, 23966), (1008, 8, 7), (1072, 8, 117990881336), (1016, 8, 7), (1080, 8, 10),
                (1024, 8, 11), (1088, 8, 158753464), (1032, 8, 13), (1096, 8, 18084), (1040, 8, 14),
                (1104, 8, 774771132902480), (1048, 8, 15), (1112, 8, 23718135697126), (1056, 8, 19),
                (1120, 8, 5324999), (1128, 8, 1), (1136, 8, 3), (1200, 8, 94), (1144, 8, 5),
                (1208, 8, 1940266), (1152, 8, 8), (1216, 8, 51154570), (1160, 8, 11), (1224, 8, 13),
                (1168, 8, 14), (1232, 8, 3230874071058), (1176, 8, 18), (1240, 8, 503513), (1184, 8, 19),
                (1248, 8, 1337312003125287), (1192, 8, 22), (1256, 8, 246842795980), (1264, 8, 5),
            ]),
            ("oracle", 200, &[
                (8, 1, 26), (9, 1, 136), (10, 1, 177), (11, 1, 67), (12, 1, 255), (13, 1, 141), (14, 1, 73),
                (15, 1, 102), (16, 1, 44), (17, 1, 70), (18, 1, 170), (19, 1, 255), (21, 1, 51),
                (22, 1, 204), (23, 1, 102), (32, 1, 45), (33, 1, 113), (34, 1, 17), (35, 1, 238),
                (36, 1, 34), (37, 1, 221), (38, 1, 136), (39, 1, 68), (56, 1, 119), (57, 1, 136),
                (58, 1, 153), (59, 1, 170), (60, 1, 141), (61, 1, 206), (62, 1, 221), (63, 1, 238),
                (0, 1, 6), (24, 8, 408763),
            ]),
            ("orderbook", 4472, &[
                (88, 4, 1), (4416, 4, 2143289344),
            ]),
            ("base_vault", 165, &[
                (64, 8, 1),
            ]),
            ("quote_vault", 165, &[
            ]),
        ],
        &[
            (36053842, true, 5017, 0),
            (1149995, false, 6018, 0),
            (0, false, 5019, 0),
            (875, false, 5016, 0),
            (2874280319, true, 5047, 0),
            (87667939, true, 5047, 0),
        ],
    ),
    (
        &[
            ("pool", 1360, &[
                (16, 8, 5006), (1296, 8, 8), (1304, 8, 9708306792), (1288, 8, 386), (1336, 8, 3),
                (1312, 8, 53), (1320, 8, 136), (1328, 8, 9223372036854775813), (1352, 8, 5005), (1284, 4, 4),
                (720, 8, 5), (736, 8, 1149), (744, 8, 1150), (752, 8, 51588413002), (760, 8, 51588759252),
                (768, 8, 51588763824), (776, 8, 51588763946), (784, 8, 51590731916), (792, 8, 1),
                (800, 8, 1751), (816, 8, 7), (824, 8, 49), (832, 8, 9), (840, 8, 90), (848, 8, 3),
                (872, 8, 947), (880, 8, 824950505), (888, 8, 824967558), (896, 8, 826870751),
                (904, 8, 826870995), (920, 8, 23630837647), (928, 8, 1), (936, 8, 17), (952, 8, 31),
                (960, 8, 153), (968, 8, 92), (976, 8, 28), (984, 8, 1), (1008, 8, 2), (1072, 8, 28),
                (1016, 8, 4), (1080, 8, 152), (1024, 8, 6), (1088, 8, 908), (1032, 8, 7), (1096, 8, 480),
                (1040, 8, 10), (1104, 8, 174), (1048, 8, 12), (1056, 8, 16), (1120, 8, 1929), (1128, 8, 1),
                (1200, 8, 48), (1144, 8, 4), (1208, 8, 105), (1152, 8, 8), (1216, 8, 4), (1160, 8, 10),
                (1224, 8, 1), (1168, 8, 13), (1232, 8, 48), (1176, 8, 16), (1184, 8, 17), (1248, 8, 519),
                (1192, 8, 19), (1256, 8, 7), (1264, 8, 2),
            ]),
            ("oracle", 64, &[
                (8, 1, 243), (9, 1, 225), (10, 1, 124), (11, 1, 127), (12, 1, 136), (13, 1, 34),
                (14, 1, 221), (15, 1, 68), (16, 1, 9), (17, 1, 88), (18, 1, 170), (19, 1, 255), (21, 1, 51),
                (22, 1, 204), (23, 1, 102), (32, 1, 153), (33, 1, 119), (34, 1, 17), (35, 1, 238),
                (36, 1, 34), (37, 1, 221), (38, 1, 136), (39, 1, 68), (56, 1, 117), (57, 1, 136),
                (58, 1, 153), (59, 1, 170), (60, 1, 185), (61, 1, 204), (62, 1, 221), (63, 1, 238),
                (0, 1, 8), (24, 8, 706),
            ]),
            ("orderbook", 4461, &[
                (88, 4, 3),
            ]),
            ("base_vault", 165, &[
                (64, 8, 215317),
            ]),
            ("quote_vault", 165, &[
                (64, 8, 41539),
            ]),
        ],
        &[
            (0, true, 5008, 0),
            (431734, false, 6007, 0),
            (22719, true, 5006, 0),
            (5696, true, 5006, 0),
            (163, true, 6007, 0),
            (57421661211, true, 6007, 0),
        ],
    ),
    (
        &[
            ("pool", 1368, &[
                (16, 8, 5007), (1296, 8, 1056961), (1288, 8, 837), (1336, 8, 11547), (1312, 8, 57),
                (1320, 8, 8394), (1328, 8, 1008097), (1352, 8, 5006), (1284, 4, 13), (720, 8, 5),
                (736, 8, 8487380), (744, 8, 8511478), (752, 8, 8703975), (760, 8, 8710878),
                (776, 8, 8711182), (784, 8, 8816201), (792, 8, 3), (800, 8, 342), (808, 8, 3), (816, 8, 189),
                (832, 8, 74), (840, 8, 1927), (848, 8, 3974), (872, 8, 68), (880, 8, 16910043),
                (896, 8, 29884304), (904, 8, 29884415), (912, 8, 29977859), (920, 8, 29977910),
                (936, 8, 219), (944, 8, 21), (952, 8, 2), (960, 8, 7), (968, 8, 3562), (976, 8, 290),
                (984, 8, 3), (1000, 8, 4), (1064, 8, 48), (1008, 8, 5), (1072, 8, 199), (1016, 8, 6),
                (1080, 8, 72), (1024, 8, 7), (1088, 8, 22), (1032, 8, 7), (1096, 8, 238), (1040, 8, 9),
                (1104, 8, 55), (1048, 8, 9), (1112, 8, 1), (1056, 8, 9), (1120, 8, 9), (1128, 8, 8),
                (1136, 8, 1), (1200, 8, 10), (1144, 8, 4), (1208, 8, 5), (1152, 8, 5), (1160, 8, 6),
                (1224, 8, 17), (1168, 8, 8), (1232, 8, 13), (1176, 8, 9), (1184, 8, 11), (1248, 8, 80),
                (1192, 8, 11), (1256, 8, 1), (1264, 8, 5),
            ]),
            ("oracle", 200, &[
                (8, 1, 185), (9, 1, 204), (10, 1, 76), (11, 1, 123), (12, 1, 136), (13, 1, 34), (14, 1, 221),
                (15, 1, 68), (16, 1, 41), (17, 1, 70), (18, 1, 170), (19, 1, 255), (21, 1, 51), (22, 1, 204),
                (23, 1, 102), (32, 1, 166), (33, 1, 119), (34, 1, 17), (35, 1, 238), (36, 1, 34),
                (37, 1, 221), (38, 1, 136), (39, 1, 68), (56, 1, 101), (57, 1, 133), (58, 1, 153),
                (59, 1, 170), (60, 1, 191), (61, 1, 204), (62, 1, 221), (63, 1, 238), (0, 1, 8),
                (24, 8, 101),
            ]),
            ("orderbook", 4461, &[
                (88, 4, 2), (4437, 4, 2143289344),
            ]),
            ("base_vault", 165, &[
                (64, 8, 795639695712),
            ]),
            ("quote_vault", 165, &[
                (64, 8, 175497508951),
            ]),
        ],
        &[
            (24723, false, 5007, 116577),
            (11, false, 5007, 50),
            (1, true, 5037, 0),
            (8, true, 5007, 0),
            (22, false, 5006, 102),
            (857427254, true, 5037, 181774696),
        ],
    ),
    (
        &[
            ("pool", 1360, &[
                (16, 8, 5015), (1288, 8, 2), (1336, 8, 46), (1312, 8, 1036), (1320, 8, 207),
                (1328, 8, 10000007), (1352, 8, 5015), (1284, 4, 1), (720, 8, 49362), (736, 8, 447976),
                (744, 8, 448360), (752, 8, 9898134112), (760, 8, 9898577965), (768, 8, 9901516809),
                (776, 8, 9901516809), (784, 8, 9901516812), (792, 8, 215), (800, 8, 838), (816, 8, 1),
                (824, 8, 1), (832, 8, 55), (840, 8, 505), (848, 8, 13), (880, 8, 1910293175),
                (888, 8, 1910294839), (904, 8, 1926195977), (912, 8, 1926195977), (920, 8, 1941480991),
                (928, 8, 4), (936, 8, 176), (944, 8, 109), (952, 8, 1287), (960, 8, 32), (968, 8, 473),
                (984, 8, 1412), (1000, 8, 3), (1064, 8, 42), (1008, 8, 6), (1072, 8, 53), (1016, 8, 9),
                (1080, 8, 58), (1024, 8, 12), (1088, 8, 277), (1032, 8, 16), (1040, 8, 20), (1048, 8, 24),
                (1112, 8, 462), (1056, 8, 27), (1120, 8, 9), (1136, 8, 4), (1144, 8, 6), (1208, 8, 2),
                (1152, 8, 9), (1216, 8, 31), (1160, 8, 11), (1224, 8, 1275), (1168, 8, 13), (1232, 8, 5),
                (1176, 8, 16), (1240, 8, 102), (1184, 8, 16), (1248, 8, 3), (1192, 8, 19), (1264, 8, 1),
            ]),
            ("oracle", 200, &[
                (8, 1, 29), (9, 1, 113), (10, 1, 110), (11, 1, 115), (12, 1, 136), (13, 1, 34), (14, 1, 221),
                (15, 1, 68), (16, 1, 33), (17, 1, 70), (18, 1, 170), (19, 1, 255), (21, 1, 51), (22, 1, 204),
                (23, 1, 102), (32, 1, 159), (33, 1, 119), (34, 1, 17), (35, 1, 238), (36, 1, 34),
                (37, 1, 221), (38, 1, 136), (39, 1, 68), (56, 1, 118), (57, 1, 136), (58, 1, 153),
                (59, 1, 170), (60, 1, 180), (61, 1, 204), (62, 1, 221), (63, 1, 238), (0, 1, 8),
                (24, 8, 49362),
            ]),
            ("orderbook", 4462, &[
                (88, 4, 3), (4458, 4, 2139095040),
            ]),
            ("base_vault", 165, &[
                (64, 8, 28183173),
            ]),
            ("quote_vault", 165, &[
                (64, 8, 2158526),
            ]),
        ],
        &[
            (111361481, false, 5017, 0),
            (600480590, false, 5015, 0),
            (4, true, 5017, 0),
            (12, true, 5015, 0),
            (12, true, 5015, 0),
            (3, true, 5015, 0),
        ],
    ),
];

fn account(len: usize, fields: Fields) -> Vec<u8> {
    let mut data = vec![0u8; len];
    for (offset, width, value) in fields {
        let bytes = value.to_le_bytes();
        for i in 0..*width as usize {
            data[offset + i] = bytes[i];
        }
    }
    data
}

#[test]
fn solfiv2_samples() {
    for (k, (updates, quotes)) in SAMPLES.iter().enumerate() {
        let mut pool = create_protocol("solfiv2").unwrap();
        for (role, len, fields) in updates.iter() {
            let data = account(*len, fields);
            assert!(pool.can_apply(role, &data));
            pool.apply_update(role, &data, 1000);
        }
        assert!(pool.is_ready());
        assert_eq!(pool.try_quote_single(1_000_000, "B2Q", u64::MAX), Some(None), "sample {k}");
        for (amount, b2q, slot, expected) in quotes.iter() {
            let direction = if *b2q { "B2Q" } else { "Q2B" };
            let got = match pool.try_quote_single(*amount, direction, *slot) {
                None => -1,
                Some(None) => 0,
                Some(Some(out)) => out as i128,
            };
            assert_eq!(got, *expected, "sample {k}: {amount} {direction} at {slot}");

            let (base, quote) = pool.vault_balances().unwrap();
            assert!(got <= if *b2q { quote } else { base } as i128, "sample {k}");

            let tier = TierInput { micro_usd: *amount as u128, usd_e21: 0, base_amount: Some(*amount) };
            if let Some(rows) = pool.try_compute_quotes(*slot, &[tier]) {
                if !*b2q && *expected > 0 {
                    let row = rows.iter().find(|r| r.direction == "Q2B").unwrap();
                    assert_eq!((row.input_amount, row.output_amount as i128), (*amount, *expected), "sample {k}");
                }
            }
        }
    }
}
