//! Pools of sampled state and what they pay.
use amm_replay::protocols::create_protocol;
use amm_replay::protocols::quotes::TierInput;

type Fields = &'static [(usize, u8, u128)];
type Update = (&'static str, usize, Fields);
type Sample = (&'static [Update], &'static [(u64, bool, u64, i128)]);

/// Account updates by role, size and fields; then amounts with their direction,
/// their slot and what comes out: nothing at zero, out of range below it.
const SAMPLES: &[Sample] = &[
    (
        &[
            ("pool", 898, &[
                (0, 1, 80), (1, 1, 79), (2, 1, 79), (3, 1, 76), (4, 1, 83), (5, 1, 84), (6, 1, 65),
                (7, 1, 84), (8, 8, 3), (48, 8, 159121178577), (56, 8, 4699252754),
                (64, 8, 82020131937921888), (72, 8, 1002), (464, 8, 1), (484, 1, 1), (485, 1, 3),
                (488, 4, 642), (416, 4, 299), (420, 4, 3), (688, 8, 1004), (288, 4, 1), (292, 4, 9),
                (296, 4, 29), (300, 4, 4294962155), (304, 4, 208), (308, 4, 185), (312, 4, 4294967269),
                (316, 4, 4294964452), (320, 4, 1), (324, 4, 128), (328, 4, 32), (336, 4, 87), (340, 4, 109),
                (348, 4, 6256), (352, 4, 9), (356, 4, 6), (360, 4, 4294967279), (368, 4, 153), (372, 4, 126),
                (376, 4, 3), (380, 4, 5707), (384, 4, 501), (392, 4, 25), (400, 4, 4), (404, 4, 53),
                (408, 4, 4294967261), (412, 4, 4294960839), (528, 4, 22), (532, 4, 19), (536, 4, 23),
                (544, 4, 1), (548, 4, 7), (552, 4, 4294967264), (556, 4, 4294960284), (560, 4, 591),
                (564, 4, 841), (568, 4, 17), (572, 4, 325), (576, 4, 355), (584, 4, 19), (592, 4, 59),
                (596, 4, 7), (600, 4, 4294967283), (608, 4, 507), (612, 4, 25), (616, 4, 23), (624, 4, 51),
                (628, 4, 71), (632, 4, 4294967273), (636, 4, 5107), (640, 4, 850), (644, 4, 21), (648, 4, 8),
                (826, 2, 238), (824, 2, 1), (840, 8, 4888780828), (832, 8, 75513742547000508), (850, 2, 1),
                (852, 2, 94), (854, 2, 289), (856, 2, 30), (858, 2, 2), (860, 1, 243),
                (864, 8, 372180246978), (872, 8, 4), (882, 2, 25), (894, 2, 20),
            ]),
            ("base_vault", 165, &[
                (64, 8, 25995614301),
            ]),
            ("quote_vault", 165, &[
            ]),
        ],
        &[
            (13320688028, true, 1002, 3891051228603),
            (39, true, 1003, 11072),
            (130413088936, true, 1007, 38094091368203),
            (719082492134200971, true, 1002, -1),
            (31366, false, 1002, 0),
            (60, false, 1003, 0),
        ],
    ),
    (
        &[
            ("pool", 898, &[
                (0, 1, 80), (1, 1, 79), (2, 1, 79), (3, 1, 76), (4, 1, 83), (5, 1, 84), (6, 1, 65),
                (7, 1, 84), (8, 8, 1), (48, 8, 5575252743), (56, 8, 201276448403),
                (64, 8, 979809956010163072), (72, 8, 1033), (464, 8, 10), (484, 1, 138), (485, 1, 84),
                (488, 4, 6), (416, 4, 4), (420, 4, 45), (688, 8, 1033), (288, 4, 7), (292, 4, 3),
                (296, 4, 37), (300, 4, 2281), (304, 4, 2023), (308, 4, 30), (312, 4, 6), (324, 4, 25),
                (328, 4, 3), (332, 4, 4294964992), (336, 4, 504), (340, 4, 430), (344, 4, 4294967256),
                (348, 4, 6711), (352, 4, 86), (356, 4, 122), (360, 4, 9), (364, 4, 4294964827), (368, 4, 1),
                (372, 4, 340), (376, 4, 4294967267), (380, 4, 3970), (384, 4, 47), (388, 4, 1),
                (392, 4, 4294967276), (404, 4, 2), (408, 4, 19), (412, 4, 4294963085), (528, 4, 959),
                (532, 4, 4), (536, 4, 30), (552, 4, 4294967269), (560, 4, 63), (564, 4, 6),
                (568, 4, 4294967283), (572, 4, 4294959213), (576, 4, 2), (580, 4, 61), (584, 4, 35),
                (588, 4, 1682), (592, 4, 107), (600, 4, 5), (604, 4, 6013), (608, 4, 33), (612, 4, 38),
                (616, 4, 27), (624, 4, 99), (628, 4, 2), (632, 4, 4294967256), (640, 4, 1), (644, 4, 371),
                (648, 4, 4294967271), (652, 4, 4294960319), (656, 4, 530), (828, 2, 142), (826, 2, 100),
                (496, 8, 56), (834, 1, 1), (836, 2, 4),
            ]),
            ("base_vault", 165, &[
                (64, 8, 7),
            ]),
            ("quote_vault", 165, &[
                (64, 8, 642282),
            ]),
        ],
        &[
            (59289, false, 1038, 170),
            (8059658516, false, 1034, 2230105),
            (36811745, true, 1038, -1),
            (734750990725, true, 1033, -1),
            (411008, true, 1033, 142873516),
            (129, false, 1038, 0),
        ],
    ),
    (
        &[
            ("pool", 898, &[
                (0, 1, 80), (1, 1, 79), (2, 1, 79), (3, 1, 76), (4, 1, 83), (5, 1, 84), (6, 1, 65),
                (7, 1, 84), (8, 8, 1), (48, 8, 29693421), (56, 8, 349599955), (64, 8, 139312022620438816),
                (72, 8, 1010), (464, 8, 1), (480, 2, 13), (482, 2, 2), (484, 1, 2), (485, 1, 2),
                (488, 4, 117), (416, 4, 21), (420, 4, 159), (648, 4, 2), (688, 8, 1010), (288, 4, 1),
                (292, 4, 7), (296, 4, 4294967269), (300, 4, 4294961050), (308, 4, 1), (312, 4, 4294967272),
                (316, 4, 4836), (320, 4, 9), (324, 4, 235), (328, 4, 25), (332, 4, 7207),
                (344, 4, 4294967279), (352, 4, 15), (360, 4, 4294967267), (368, 4, 438),
                (376, 4, 4294967289), (380, 4, 4294962283), (388, 4, 31), (392, 4, 30), (396, 4, 4689),
                (400, 4, 66), (408, 4, 27), (528, 4, 1), (536, 4, 4294967279), (540, 4, 4294964907),
                (544, 4, 312), (548, 4, 194), (552, 4, 4294967282), (556, 4, 501), (560, 4, 172),
                (564, 4, 1), (568, 4, 4), (572, 4, 4294958891), (584, 4, 4294967258), (592, 4, 121),
                (596, 4, 7), (600, 4, 17), (604, 4, 4294961778), (608, 4, 506), (612, 4, 213), (616, 4, 10),
                (620, 4, 7603), (624, 4, 440), (628, 4, 2), (632, 4, 4294967281), (636, 4, 4294962874),
                (640, 4, 31), (648, 4, 4294967272), (656, 4, 758), (828, 2, 6), (496, 8, 21),
                (504, 8, 25560543), (832, 2, 9), (836, 2, 1), (838, 1, 1),
            ]),
            ("base_vault", 165, &[
                (64, 8, 972464),
            ]),
            ("quote_vault", 165, &[
                (64, 8, 23864),
            ]),
        ],
        &[
            (5684534811, true, 1011, -1),
            (767381, true, 1015, -1),
            (9139, false, 1010, -1),
            (3333917167, true, 1011, -1),
            (6, false, 1015, -1),
            (155, false, 1010, -1),
        ],
    ),
    (
        &[
            ("pool", 1024, &[
                (0, 1, 80), (1, 1, 79), (2, 1, 79), (3, 1, 76), (4, 1, 83), (5, 1, 84), (6, 1, 65),
                (7, 1, 84), (8, 8, 2), (48, 8, 3152045579779), (56, 8, 207831390710),
                (64, 8, 179294551284161408), (72, 8, 1009), (464, 8, 1000), (480, 2, 2), (484, 1, 160),
                (485, 1, 46), (488, 4, 598), (648, 4, 1), (688, 8, 1006), (292, 4, 71), (296, 4, 4294967262),
                (304, 4, 33), (312, 4, 18), (320, 4, 538), (324, 4, 1), (328, 4, 20), (336, 4, 3),
                (340, 4, 1549), (344, 4, 4294967282), (348, 4, 4294965856), (352, 4, 108), (356, 4, 4),
                (360, 4, 21), (368, 4, 323), (372, 4, 203), (376, 4, 4294967265), (380, 4, 4294963126),
                (384, 4, 10), (388, 4, 1419), (392, 4, 4294967294), (400, 4, 7), (404, 4, 34),
                (408, 4, 4294967268), (412, 4, 4294965429), (528, 4, 11), (532, 4, 73), (536, 4, 19),
                (540, 4, 6266), (544, 4, 1), (548, 4, 51), (552, 4, 4294967295), (556, 4, 4294961109),
                (564, 4, 7), (568, 4, 4294967265), (572, 4, 7600), (576, 4, 6), (580, 4, 7),
                (584, 4, 4294967282), (592, 4, 2), (596, 4, 67), (600, 4, 6), (604, 4, 4294962641),
                (608, 4, 1), (612, 4, 7), (616, 4, 23), (620, 4, 6929), (632, 4, 22), (636, 4, 5770),
                (640, 4, 11), (644, 4, 1), (648, 4, 4), (652, 4, 3324), (656, 4, 1), (826, 2, 24),
                (496, 8, 1759742), (832, 2, 9), (834, 1, 5), (838, 1, 24),
            ]),
            ("base_vault", 165, &[
                (64, 8, 47572778745),
            ]),
            ("quote_vault", 165, &[
                (64, 8, 101422484),
            ]),
        ],
        &[
            (2, true, 1010, 0),
            (31818, true, 1110, 0),
            (3166, true, 1014, 1985),
            (419474, false, 1110, 0),
            (1, false, 1014, 0),
            (84474, false, 1014, 131450),
        ],
    ),
    (
        &[
            ("pool", 898, &[
                (0, 1, 80), (1, 1, 79), (2, 1, 79), (3, 1, 76), (4, 1, 83), (5, 1, 84), (6, 1, 65),
                (7, 1, 84), (8, 8, 4), (48, 8, 44), (56, 8, 445459677), (64, 8, 483662651983524544),
                (72, 8, 1016), (464, 8, 10), (480, 2, 23), (484, 1, 7), (485, 1, 171), (488, 4, 165),
                (416, 4, 231), (420, 4, 2036), (648, 4, 3), (688, 8, 1013), (288, 4, 31), (292, 4, 54),
                (296, 4, 4294967273), (308, 4, 1), (312, 4, 31), (316, 4, 4294961280), (320, 4, 2),
                (324, 4, 12), (328, 4, 32), (336, 4, 1783), (340, 4, 24), (344, 4, 12), (352, 4, 17),
                (356, 4, 24), (360, 4, 4294967263), (364, 4, 7323), (368, 4, 495), (372, 4, 4), (376, 4, 24),
                (388, 4, 3), (392, 4, 11), (396, 4, 5609), (400, 4, 13), (408, 4, 4294967272),
                (412, 4, 4294959352), (528, 4, 1564), (532, 4, 123), (536, 4, 35), (548, 4, 218),
                (552, 4, 19), (568, 4, 26), (572, 4, 4294961864), (576, 4, 1), (584, 4, 4294967256),
                (592, 4, 470), (600, 4, 4294967294), (604, 4, 4294962489), (608, 4, 162), (612, 4, 44),
                (616, 4, 4294967270), (624, 4, 8), (628, 4, 98), (632, 4, 9), (648, 4, 28), (652, 4, 880),
                (656, 4, 15), (828, 2, 20), (826, 2, 3), (496, 8, 5303288597), (504, 8, 3), (824, 2, 1),
                (840, 8, 28828540562), (832, 8, 401906280834840143), (850, 2, 3), (852, 2, 662), (854, 2, 5),
                (856, 2, 3), (858, 2, 434), (860, 1, 7), (864, 8, 73223660), (872, 8, 1506452), (882, 2, 21),
                (894, 2, 12), (896, 2, 1),
            ]),
            ("base_vault", 165, &[
                (64, 8, 118886204),
            ]),
            ("quote_vault", 165, &[
                (64, 8, 49838),
            ]),
        ],
        &[
            (60, false, 1117, 0),
            (7947, true, 1016, 1365057),
            (1823964, true, 1117, 313325461),
            (3478959, false, 1016, 20238),
            (102615023191215249, false, 1016, 596977654547047),
            (10, true, 1117, 1546),
        ],
    ),
    (
        &[
            ("pool", 1024, &[
                (0, 1, 80), (1, 1, 79), (2, 1, 79), (3, 1, 76), (4, 1, 83), (5, 1, 84), (6, 1, 65),
                (7, 1, 84), (8, 8, 3), (48, 8, 1665267815396), (56, 8, 8262636), (64, 8, 46682290396378232),
                (72, 8, 1006), (464, 8, 1), (484, 1, 61), (485, 1, 1), (488, 4, 13), (416, 4, 969),
                (420, 4, 2), (648, 4, 14), (688, 8, 1003), (288, 4, 2), (292, 4, 23), (296, 4, 20),
                (300, 4, 4294959288), (304, 4, 6), (308, 4, 785), (312, 4, 11), (316, 4, 4294959628),
                (324, 4, 8), (328, 4, 4294967263), (336, 4, 128), (340, 4, 173), (344, 4, 6),
                (348, 4, 4294967219), (352, 4, 22), (356, 4, 11), (364, 4, 31), (372, 4, 1547), (376, 4, 36),
                (388, 4, 91), (392, 4, 19), (396, 4, 3665), (400, 4, 52), (404, 4, 16), (408, 4, 23),
                (528, 4, 621), (532, 4, 1582), (536, 4, 4294967275), (540, 4, 4294966033), (544, 4, 14),
                (548, 4, 25), (552, 4, 36), (560, 4, 48), (568, 4, 12), (576, 4, 70), (580, 4, 83),
                (584, 4, 4294967276), (596, 4, 43), (600, 4, 4294967282), (604, 4, 4294961455),
                (608, 4, 126), (612, 4, 1990), (616, 4, 17), (624, 4, 1), (628, 4, 79), (632, 4, 4294967286),
                (640, 4, 4), (644, 4, 9), (648, 4, 4294967290), (652, 4, 3221), (656, 4, 533), (828, 2, 3),
                (826, 2, 1), (496, 8, 7716), (824, 2, 1), (840, 8, 2782481336),
                (832, 8, 7306194517048623174), (850, 2, 15), (852, 2, 4), (854, 2, 59), (856, 2, 827),
                (858, 2, 1), (860, 1, 126), (872, 8, 1), (882, 2, 6), (884, 2, 1), (896, 2, 221),
            ]),
            ("base_vault", 165, &[
                (64, 8, 919),
            ]),
            ("quote_vault", 165, &[
                (64, 8, 211569866611),
            ]),
        ],
        &[
            (5, false, 1107, 0),
            (306, true, 1006, 0),
            (63, true, 1107, 0),
            (0, false, 1011, 0),
            (1271, true, 1006, 0),
            (17958, true, 1011, 0),
        ],
    ),
    (
        &[
            ("pool", 898, &[
                (0, 1, 80), (1, 1, 79), (2, 1, 79), (3, 1, 76), (4, 1, 83), (5, 1, 84), (6, 1, 65),
                (7, 1, 84), (8, 8, 4), (48, 8, 328), (56, 8, 8981432031), (64, 8, 230372470657552640),
                (72, 8, 1026), (464, 8, 10), (484, 1, 11), (485, 1, 13), (488, 4, 201), (522, 2, 5),
                (416, 4, 7), (648, 4, 7), (688, 8, 1026), (288, 4, 7), (296, 4, 33), (300, 4, 2951),
                (312, 4, 4294967262), (316, 4, 4294962965), (320, 4, 1), (324, 4, 474), (328, 4, 7),
                (336, 4, 1), (340, 4, 2), (344, 4, 26), (356, 4, 96), (360, 4, 4294967281), (372, 4, 40),
                (376, 4, 4294967262), (384, 4, 1270), (388, 4, 1688), (392, 4, 4294967276),
                (396, 4, 4294965572), (400, 4, 433), (404, 4, 6), (408, 4, 20), (532, 4, 60), (536, 4, 26),
                (540, 4, 4294963423), (544, 4, 3), (552, 4, 4294967280), (560, 4, 858), (564, 4, 3),
                (568, 4, 9), (572, 4, 5933), (576, 4, 430), (580, 4, 9), (584, 4, 4294967287),
                (588, 4, 4950), (592, 4, 376), (596, 4, 64), (600, 4, 16), (612, 4, 504), (616, 4, 22),
                (624, 4, 97), (628, 4, 399), (632, 4, 18), (636, 4, 4294964180), (640, 4, 6), (648, 4, 5),
                (652, 4, 5109), (656, 4, 1), (828, 2, 64), (826, 2, 168), (824, 2, 1), (840, 8, 13731269279),
                (832, 8, 13288913960042702993), (850, 2, 20), (854, 2, 2064), (856, 2, 41), (858, 2, 557),
                (864, 8, 15), (888, 2, 387), (890, 2, 1), (894, 2, 18), (896, 2, 8),
            ]),
            ("base_vault", 165, &[
                (64, 8, 223685482),
            ]),
            ("quote_vault", 165, &[
                (64, 8, 82733386644),
            ]),
        ],
        &[
            (390350, true, 1026, 31949842),
            (667493, false, 1027, 8145),
            (1661204, false, 1026, 20275),
            (899981, true, 1031, 73662741),
            (254, false, 1031, 3),
            (24624, false, 1127, 298),
        ],
    ),
    (
        &[
            ("pool", 898, &[
                (0, 1, 80), (1, 1, 79), (2, 1, 79), (3, 1, 76), (4, 1, 83), (5, 1, 84), (6, 1, 65),
                (7, 1, 84), (8, 8, 1), (48, 8, 61752854), (56, 8, 1261), (64, 8, 104651660555249744),
                (72, 8, 1018), (464, 8, 1), (482, 2, 2), (488, 4, 320), (522, 2, 3), (420, 4, 1),
                (648, 4, 1), (688, 8, 1020), (296, 4, 4294967262), (300, 4, 4294958381), (304, 4, 1),
                (308, 4, 91), (312, 4, 28), (316, 4, 4294965644), (320, 4, 154), (324, 4, 68),
                (328, 4, 4294967282), (332, 4, 3000), (344, 4, 4294967287), (348, 4, 4294963188),
                (356, 4, 148), (360, 4, 4294967290), (364, 4, 4171), (376, 4, 31), (380, 4, 2479),
                (384, 4, 479), (388, 4, 187), (392, 4, 23), (408, 4, 4294967263), (528, 4, 11), (532, 4, 1),
                (536, 4, 4294967263), (544, 4, 282), (548, 4, 963), (552, 4, 4294967281),
                (556, 4, 4294962957), (560, 4, 4), (564, 4, 329), (568, 4, 24), (576, 4, 79), (584, 4, 40),
                (588, 4, 4294959884), (592, 4, 1102), (600, 4, 8), (604, 4, 5308), (608, 4, 1),
                (612, 4, 463), (616, 4, 4294967278), (624, 4, 3), (628, 4, 39), (632, 4, 4294967271),
                (636, 4, 1994), (640, 4, 107), (644, 4, 10), (648, 4, 30), (652, 4, 5288), (656, 4, 10),
                (826, 2, 3), (496, 8, 266), (832, 2, 29), (834, 1, 6), (836, 2, 2), (838, 1, 3),
            ]),
            ("base_vault", 165, &[
                (64, 8, 764167787836),
            ]),
            ("quote_vault", 165, &[
                (64, 8, 4307171534347),
            ]),
        ],
        &[
            (611761233849700689, false, 1018, 1825845234820506),
            (306199211, false, 1018, 770252),
            (289, false, 1018, 0),
            (0, true, 1119, 0),
            (4099546, true, 1018, 1707104544),
            (0, false, 1018, 0),
        ],
    ),
    (
        &[
            ("pool", 1024, &[
                (0, 1, 80), (1, 1, 79), (2, 1, 79), (3, 1, 76), (4, 1, 83), (5, 1, 84), (6, 1, 65),
                (7, 1, 84), (8, 8, 1), (48, 8, 14), (56, 8, 50516411670), (64, 8, 138809508098675),
                (72, 8, 1013), (464, 8, 1), (484, 1, 7), (488, 4, 5), (522, 2, 1), (420, 4, 8),
                (688, 8, 1015), (288, 4, 29), (292, 4, 24), (296, 4, 4140344906), (300, 4, 7506),
                (304, 4, 9), (308, 4, 63), (312, 4, 3388969104), (320, 4, 33), (328, 4, 2014089136),
                (336, 4, 1765), (340, 4, 1), (344, 4, 3521062096), (356, 4, 51), (360, 4, 1238387941),
                (368, 4, 15), (376, 4, 2985895371), (380, 4, 4294964342), (384, 4, 177), (388, 4, 66),
                (392, 4, 2482522846), (396, 4, 4294963502), (400, 4, 7), (404, 4, 474), (408, 4, 2140249225),
                (528, 4, 785), (536, 4, 3384065174), (540, 4, 4294961722), (544, 4, 3), (548, 4, 59),
                (552, 4, 1694791749), (556, 4, 4294961119), (560, 4, 25), (564, 4, 6), (568, 4, 1301980822),
                (572, 4, 4294966920), (576, 4, 128), (580, 4, 1), (584, 4, 4219418350), (588, 4, 4294965949),
                (592, 4, 2), (596, 4, 386), (600, 4, 2960240858), (604, 4, 4294959406), (608, 4, 167),
                (612, 4, 39), (616, 4, 3728023983), (620, 4, 5755), (624, 4, 1), (628, 4, 88),
                (632, 4, 3321878835), (640, 4, 1), (644, 4, 82), (648, 4, 3801585177), (656, 4, 4),
                (828, 2, 1692), (826, 2, 79), (496, 8, 499), (504, 8, 92), (824, 2, 1), (834, 1, 30),
            ]),
            ("base_vault", 165, &[
                (64, 8, 859429991040),
            ]),
            ("quote_vault", 165, &[
                (64, 8, 2532690),
            ]),
        ],
        &[
            (384456, true, 1014, 189535),
            (40, false, 1014, -1),
            (7783224, true, 1018, 3836956),
            (134348336, false, 1014, -1),
            (0, true, 1018, 0),
            (116, false, 1114, 0),
        ],
    ),
    (
        &[
            ("pool", 1024, &[
                (0, 1, 80), (1, 1, 79), (2, 1, 79), (3, 1, 76), (4, 1, 83), (5, 1, 84), (6, 1, 65),
                (7, 1, 84), (8, 8, 3), (48, 8, 10943), (56, 8, 1932220218854), (64, 8, 108937627783172576),
                (72, 8, 1043), (464, 8, 1), (482, 2, 3), (484, 1, 10), (485, 1, 1), (486, 1, 1),
                (488, 4, 160), (522, 2, 3), (416, 4, 58), (648, 4, 13), (688, 8, 1040), (288, 4, 172),
                (292, 4, 952), (296, 4, 4294967279), (304, 4, 53), (308, 4, 116), (312, 4, 4294967269),
                (316, 4, 4294959545), (320, 4, 55), (324, 4, 2), (328, 4, 4294967281), (332, 4, 8013),
                (336, 4, 1), (340, 4, 233), (344, 4, 29), (348, 4, 4294965012), (352, 4, 4), (356, 4, 811),
                (360, 4, 7), (364, 4, 8094), (368, 4, 47), (372, 4, 26), (376, 4, 4294967279),
                (384, 4, 2016), (388, 4, 182), (392, 4, 4294967263), (396, 4, 4294966568), (400, 4, 25),
                (408, 4, 4294967257), (412, 4, 4294960759), (528, 4, 40), (532, 4, 1382), (536, 4, 5),
                (544, 4, 2), (548, 4, 820), (552, 4, 27), (556, 4, 4294965469), (560, 4, 27),
                (568, 4, 4294967264), (572, 4, 4294964625), (576, 4, 575), (580, 4, 462),
                (584, 4, 4294967274), (588, 4, 2571), (592, 4, 127), (596, 4, 12), (600, 4, 30),
                (604, 4, 4294962397), (608, 4, 25), (612, 4, 2), (616, 4, 8), (620, 4, 4294966604),
                (624, 4, 190), (632, 4, 4294967291), (640, 4, 309), (644, 4, 15), (648, 4, 22),
                (656, 4, 918), (828, 2, 4), (826, 2, 13), (496, 8, 957356), (504, 8, 3),
                (840, 8, 6493188606), (832, 8, 15335294845633202455), (850, 2, 20), (852, 2, 7),
                (854, 2, 11), (856, 2, 7), (858, 2, 1), (860, 1, 4), (864, 8, 159349780410), (882, 2, 3),
                (888, 2, 7), (894, 2, 923), (896, 2, 201),
            ]),
            ("base_vault", 165, &[
                (64, 8, 330020146023),
            ]),
            ("quote_vault", 165, &[
                (64, 8, 2025),
            ]),
        ],
        &[
            (4632616269, false, 1043, 11967725),
            (107, true, 1043, 41024),
            (539147345844296806, true, 1043, 5957874128812541084),
            (1069824084, true, 1144, 413768573872),
            (26, true, 1144, 9674),
            (63739745148, true, 1048, 24646840529602),
        ],
    ),
    (
        &[
            ("pool", 1024, &[
                (0, 1, 80), (1, 1, 79), (2, 1, 79), (3, 1, 76), (4, 1, 83), (5, 1, 84), (6, 1, 65),
                (7, 1, 84), (8, 8, 3), (48, 8, 32841559987), (56, 8, 2), (64, 8, 2091), (72, 8, 1030),
                (464, 8, 10), (484, 1, 40), (485, 1, 1), (488, 4, 15), (416, 4, 6), (420, 4, 13),
                (648, 4, 2), (688, 8, 1030), (288, 4, 4), (292, 4, 26), (296, 4, 2120555429), (300, 4, 4229),
                (304, 4, 251), (308, 4, 13), (312, 4, 2175074442), (320, 4, 504), (328, 4, 825959834),
                (332, 4, 1390), (336, 4, 2), (340, 4, 89), (344, 4, 3368180130), (348, 4, 4294959608),
                (352, 4, 1135), (356, 4, 34), (360, 4, 2465500449), (364, 4, 4294959924), (368, 4, 1),
                (376, 4, 199272221), (380, 4, 4294964519), (384, 4, 392), (388, 4, 61), (392, 4, 3388845117),
                (396, 4, 7411), (400, 4, 75), (404, 4, 689), (408, 4, 2991030301), (532, 4, 648),
                (536, 4, 1966576742), (544, 4, 185), (552, 4, 1810635447), (560, 4, 27), (564, 4, 3),
                (568, 4, 1328630528), (572, 4, 4294966750), (576, 4, 1), (584, 4, 1367848684),
                (588, 4, 4294958964), (592, 4, 328), (596, 4, 478), (600, 4, 3924881217),
                (604, 4, 4294960085), (608, 4, 267), (616, 4, 3542301102), (620, 4, 4294962190),
                (624, 4, 356), (628, 4, 28), (632, 4, 288702739), (636, 4, 4294958759), (640, 4, 303),
                (644, 4, 1004), (648, 4, 666991142), (652, 4, 6579), (656, 4, 26), (828, 2, 1), (826, 2, 27),
                (496, 8, 320), (840, 8, 1), (832, 8, 2244431151623804404), (854, 2, 2), (856, 2, 11),
                (858, 2, 124), (860, 1, 93), (864, 8, 1889), (884, 2, 85), (896, 2, 703),
            ]),
            ("base_vault", 165, &[
                (64, 8, 210795622963),
            ]),
            ("quote_vault", 165, &[
                (64, 8, 163837),
            ]),
        ],
        &[
            (1307706310, true, 1031, 8),
            (191927144879225082, true, 1030, 1279309838),
            (1383683954354, false, 1035, 4046640157094173940),
            (39196558501504917, false, 1131, 9161400460665777629),
            (73375, true, 1131, 0),
            (269404870680, true, 1030, 1795),
        ],
    ),
    (
        &[
            ("pool", 1024, &[
                (0, 1, 80), (1, 1, 79), (2, 1, 79), (3, 1, 76), (4, 1, 83), (5, 1, 84), (6, 1, 65),
                (7, 1, 84), (8, 8, 4), (48, 8, 131048516), (56, 8, 12343), (64, 8, 212951691797868608),
                (72, 8, 1038), (464, 8, 1000), (482, 2, 28), (485, 1, 8), (488, 4, 471), (416, 4, 3),
                (420, 4, 75), (648, 4, 3), (688, 8, 1040), (288, 4, 795), (292, 4, 44), (296, 4, 28),
                (300, 4, 4294961083), (304, 4, 12), (308, 4, 1908), (312, 4, 4294967285), (320, 4, 404),
                (324, 4, 90), (328, 4, 4294967282), (336, 4, 29), (340, 4, 22), (344, 4, 28), (352, 4, 3),
                (356, 4, 266), (360, 4, 4294967289), (364, 4, 8100), (368, 4, 64), (372, 4, 103),
                (376, 4, 4294967280), (388, 4, 593), (392, 4, 6), (396, 4, 2760), (400, 4, 219),
                (408, 4, 4294967261), (412, 4, 7163), (532, 4, 474), (536, 4, 4294967266),
                (540, 4, 4294963412), (544, 4, 15), (548, 4, 8), (552, 4, 26), (564, 4, 7), (568, 4, 32),
                (576, 4, 14), (580, 4, 6), (584, 4, 4294967268), (592, 4, 13), (600, 4, 3), (608, 4, 5),
                (616, 4, 4294967262), (620, 4, 4294959436), (624, 4, 938), (628, 4, 121),
                (632, 4, 4294967264), (640, 4, 1964), (656, 4, 518), (828, 2, 11), (826, 2, 108),
                (496, 8, 379), (840, 8, 3249384945646), (832, 8, 17371551324023538627), (850, 2, 15),
                (852, 2, 1), (854, 2, 231), (860, 1, 12), (864, 8, 3047744315), (884, 2, 5), (888, 2, 302),
                (890, 2, 107), (894, 2, 11), (896, 2, 6),
            ]),
            ("base_vault", 165, &[
                (64, 8, 47),
            ]),
            ("quote_vault", 165, &[
                (64, 8, 407641857),
            ]),
        ],
        &[
            (64010436, false, 1038, 330365),
            (13402467, true, 1038, 2596193543),
            (454427, true, 1038, 88026954),
            (3792, false, 1038, 19),
            (15930, true, 1038, 3085608),
            (10292, true, 1039, 1993470),
        ],
    ),
];

fn account(len: usize, fields: Fields) -> Vec<u8> {
    let mut data = vec![0u8; len];
    for (offset, width, value) in fields {
        let bytes = value.to_le_bytes();
        for i in 0..*width as usize {
            data[offset + i] = bytes[i];
        }
    }
    data
}

#[test]
fn bisonfi_samples() {
    for (k, (updates, quotes)) in SAMPLES.iter().enumerate() {
        let mut pool = create_protocol("bisonfi").unwrap();
        for (role, len, fields) in updates.iter() {
            let data = account(*len, fields);
            assert!(pool.can_apply(role, &data));
            pool.apply_update(role, &data, 1000);
        }
        assert!(pool.is_ready());
        let tier = TierInput { micro_usd: 5_000_000, usd_e21: 0, base_amount: Some(1_000_000) };
        if let Some(rows) = pool.try_compute_quotes(u64::MAX, &[tier]) {
            assert!(rows.iter().all(|r| r.output_amount == 0), "sample {k}");
        }
        for (amount, b2q, slot, expected) in quotes.iter() {
            let direction = if *b2q { "B2Q" } else { "Q2B" };
            let got = match pool.try_quote_single(*amount, direction, *slot) {
                None => -1,
                Some(None) => 0,
                Some(Some(out)) => out as i128,
            };
            assert_eq!(got, *expected, "sample {k}: {amount} {direction} at {slot}");
        }
    }
}
