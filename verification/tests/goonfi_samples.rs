//! Pools of sampled state and what they pay.
use amm_replay::protocols::create_protocol;
use amm_replay::protocols::quotes::TierInput;

type Fields = &'static [(usize, u8, u128)];
type Update = (&'static str, usize, Fields);
type Sample = (&'static [Update], &'static [(u64, bool, u64, i128)]);

/// Account updates by role, size and fields; then amounts with their direction,
/// their slot and what comes out: nothing at zero, out of range below it.
const SAMPLES: &[Sample] = &[
    (
        &[
            ("pool", 2048, &[
                (1981, 1, 6), (24, 8, 68), (32, 8, 7002), (40, 8, 7002), (64, 8, 502), (240, 8, 30299),
                (248, 8, 59457613949860805), (256, 8, 66863493), (264, 8, 241), (272, 8, 3),
                (280, 8, 446974418401508), (288, 8, 22166689), (296, 8, 672000740277641),
                (304, 8, 451685121), (312, 8, 55879909), (320, 8, 122), (328, 8, 53), (336, 8, 2982184),
                (344, 8, 26720), (352, 8, 219260), (360, 8, 24236630888284), (368, 8, 58285513617035176),
                (376, 8, 27882473), (384, 8, 13239566241980060), (392, 8, 5547289), (1480, 8, 7898),
                (1488, 8, 7899), (1496, 8, 623147), (1504, 8, 1822504), (1512, 8, 17989834),
                (1520, 8, 18997854), (1528, 8, 19005852), (1536, 8, 19005902), (1544, 8, 19475889),
                (1552, 8, 12190432049), (1560, 8, 12190456565), (1568, 8, 12190456959),
                (1576, 8, 12190456960), (1584, 8, 202778477011), (1592, 8, 202778477053),
                (1600, 8, 202788033868), (1608, 8, 202788374303), (1616, 8, 202788374769),
                (1624, 8, 202897145337), (1632, 8, 4), (1648, 8, 108161619), (1656, 8, 34), (1664, 8, 55),
                (1672, 8, 108161619), (1680, 8, 1373),
            ]),
            ("oracle", 24, &[
                (0, 8, 249396), (8, 8, 63), (16, 4, 7003), (20, 4, 18219),
            ]),
            ("base_vault", 72, &[
                (64, 8, 349997980771),
            ]),
            ("quote_vault", 165, &[
                (64, 8, 1135),
            ]),
        ],
        &[
            (3, true, 0, 0),
            (2, true, 7007, 0),
            (366, true, 0, 0),
            (47275057, false, 7002, 0),
            (226804, false, 0, 0),
            (3877, false, 7003, 0),
        ],
    ),
    (
        &[
            ("pool", 2057, &[
                (1980, 1, 9), (1981, 1, 6), (16, 8, 2937), (24, 8, 169486027689), (32, 8, 7004),
                (40, 8, 7007), (64, 8, 95), (400, 8, 1), (1689, 1, 2), (240, 8, 11), (248, 8, 37),
                (256, 8, 680), (272, 8, 5472), (280, 8, 1), (288, 8, 13), (304, 8, 56), (312, 8, 3),
                (320, 8, 628), (328, 8, 150), (336, 8, 7), (344, 8, 1103), (352, 8, 1923), (360, 8, 309),
                (376, 8, 78), (384, 8, 7335), (392, 8, 4), (1472, 8, 109236097), (1480, 8, 111002442),
                (1488, 8, 112122520), (1496, 8, 215243190), (1504, 8, 215244173), (1512, 8, 215246810),
                (1520, 8, 216492635), (1528, 8, 217434806), (1536, 8, 217435346), (1544, 8, 217464339),
                (1560, 8, 953748454), (1568, 8, 1924260082), (1576, 8, 1924346359), (1584, 8, 1924347214),
                (1592, 8, 1924347214), (1600, 8, 2089713412), (1608, 8, 2090137137), (1616, 8, 2983385455),
                (1624, 8, 2983385455), (1632, 8, 49765), (1656, 8, 99301), (1664, 8, 78762),
                (1672, 8, 18985), (1680, 8, 29989474),
            ]),
            ("oracle", 24, &[
                (0, 8, 233188597), (8, 8, 233188598), (16, 4, 7009), (20, 4, 13),
            ]),
            ("base_vault", 72, &[
                (64, 8, 42),
            ]),
            ("quote_vault", 165, &[
                (64, 8, 23902),
            ]),
        ],
        &[
            (0, false, 7013, 0),
            (4567564466819, false, 7009, 19587426254945),
            (6677352, false, 0, 28634985),
            (3240157, false, 7008, 13895006),
            (6, false, 7009, 26),
            (50, false, 7009, 214),
        ],
    ),
    (
        &[
            ("pool", 2057, &[
                (1980, 1, 9), (1981, 1, 6), (16, 8, 163906), (24, 8, 3), (32, 8, 6996), (40, 8, 7000),
                (64, 8, 7994777238), (400, 8, 36), (240, 8, 1938), (248, 8, 34), (256, 8, 97), (264, 8, 85),
                (272, 8, 3), (280, 8, 846), (288, 8, 1330), (296, 8, 7), (304, 8, 3), (336, 8, 200),
                (344, 8, 2639), (352, 8, 199), (360, 8, 3), (368, 8, 7), (384, 8, 890), (392, 8, 3655),
                (1472, 8, 30263932), (1480, 8, 34825273), (1488, 8, 3943275932), (1496, 8, 3975408427),
                (1504, 8, 30851488185), (1512, 8, 30851488199), (1520, 8, 30851488200),
                (1528, 8, 148132947190), (1536, 8, 148132947702), (1544, 8, 148140804778), (1552, 8, 714513),
                (1560, 8, 52711355), (1568, 8, 53585936), (1576, 8, 53664293), (1584, 8, 273985730),
                (1592, 8, 296974145), (1600, 8, 296974147), (1608, 8, 296988842), (1616, 8, 297042120),
                (1624, 8, 297042239), (1632, 8, 139452), (1648, 8, 45), (1656, 8, 115991979), (1664, 8, 320),
                (1672, 8, 405873441), (1680, 8, 8032825988),
            ]),
            ("oracle", 24, &[
                (0, 8, 143136437), (8, 8, 143136439), (16, 4, 6980), (20, 4, 1000000),
            ]),
            ("base_vault", 72, &[
                (64, 8, 39385),
            ]),
            ("quote_vault", 165, &[
                (64, 8, 1031114253),
            ]),
        ],
        &[
            (893288, false, 0, 2),
            (123, false, 0, 0),
            (19369870363, false, 7000, 52306),
            (139, true, 7005, 541967202),
            (669395601192, false, 7001, 1806351),
            (643224, true, 7000, 2510132121147),
        ],
    ),
    (
        &[
            ("pool", 2048, &[
                (1981, 1, 6), (16, 8, 352), (24, 8, 275026478), (32, 8, 7007), (40, 8, 7009),
                (64, 8, 3360546), (400, 8, 31), (1689, 1, 1), (248, 8, 47), (256, 8, 780), (264, 8, 5),
                (272, 8, 1), (280, 8, 2522), (296, 8, 195), (304, 8, 944), (312, 8, 254), (320, 8, 1099),
                (328, 8, 3751), (336, 8, 1), (344, 8, 614), (352, 8, 13), (376, 8, 211), (384, 8, 8033),
                (392, 8, 18), (1472, 8, 5), (1480, 8, 27861597), (1488, 8, 28132018), (1496, 8, 28132025),
                (1504, 8, 28341770), (1512, 8, 28341774), (1520, 8, 28341799), (1528, 8, 28342325),
                (1536, 8, 28384747), (1544, 8, 28384748), (1552, 8, 202), (1560, 8, 226122),
                (1568, 8, 226142), (1576, 8, 234315), (1584, 8, 255432198619), (1592, 8, 255434386626),
                (1600, 8, 255463068922), (1608, 8, 255463069922), (1616, 8, 255463116530),
                (1624, 8, 255463116530), (1632, 8, 4651), (1648, 8, 30265), (1664, 8, 42304101574213),
                (1672, 8, 230514194827), (1680, 8, 2156881136546),
            ]),
            ("oracle", 24, &[
                (0, 8, 68116379), (8, 8, 68116399), (16, 4, 7004), (20, 4, 11452),
            ]),
            ("base_vault", 72, &[
                (64, 8, 4545),
            ]),
            ("quote_vault", 165, &[
                (64, 8, 197462),
            ]),
        ],
        &[
            (4200293488508, true, 7012, 5546628150076144616),
            (439697573634, true, 0, 13030830600415772216),
            (0, true, 7008, 0),
            (4599906021650598, false, 0, 6520345),
            (2421153623521037151, false, 7007, 3431973975),
            (64, false, 7012, 0),
        ],
    ),
    (
        &[
            ("pool", 2057, &[
                (1980, 1, 6), (1981, 1, 6), (16, 8, 5203), (24, 8, 161776411), (32, 8, 7007), (40, 8, 7003),
                (64, 8, 1403), (400, 8, 122), (240, 8, 1232), (248, 8, 70), (256, 8, 1), (264, 8, 15),
                (272, 8, 11), (280, 8, 881), (296, 8, 25), (312, 8, 85), (320, 8, 14), (328, 8, 119),
                (336, 8, 693), (344, 8, 49), (352, 8, 14), (360, 8, 697), (376, 8, 30), (384, 8, 2),
                (392, 8, 5), (1472, 8, 30), (1480, 8, 159), (1488, 8, 4591931192), (1496, 8, 4591935179),
                (1504, 8, 4591935180), (1512, 8, 10774593816), (1520, 8, 10774600489),
                (1528, 8, 10774600495), (1536, 8, 46773177083), (1544, 8, 46773177083), (1552, 8, 628),
                (1560, 8, 8322), (1568, 8, 149870044), (1576, 8, 149870046), (1584, 8, 149870047),
                (1592, 8, 149870129), (1600, 8, 162971610), (1608, 8, 163057074), (1616, 8, 163057179),
                (1624, 8, 169911793), (1632, 8, 898), (1648, 8, 6), (1656, 8, 113244790),
                (1664, 8, 17179522168), (1672, 8, 481509351), (1680, 8, 1996682148865),
            ]),
            ("oracle", 24, &[
                (0, 8, 169254976), (8, 8, 169255820), (16, 4, 7007), (20, 4, 1),
            ]),
            ("base_vault", 72, &[
                (64, 8, 66654084795),
            ]),
            ("quote_vault", 165, &[
                (64, 8, 3527237),
            ]),
        ],
        &[
            (28, true, 7007, 89447676788),
            (51419, false, 7008, 0),
            (123, true, 7008, 392930865891),
            (1789889066197292101, true, 7007, 8932497122097158256),
            (14943, false, 7007, 0),
            (4384, false, 7007, 0),
        ],
    ),
    (
        &[
            ("pool", 2048, &[
                (1980, 1, 9), (1981, 1, 6), (16, 8, 43854), (24, 8, 52091), (32, 8, 6996), (40, 8, 6999),
                (64, 8, 3056115428), (400, 8, 7), (240, 8, 699), (248, 8, 36), (256, 8, 27), (264, 8, 1315),
                (272, 8, 8), (280, 8, 3), (288, 8, 2689), (296, 8, 3306), (304, 8, 4), (312, 8, 91),
                (320, 8, 79), (328, 8, 76), (336, 8, 2912), (344, 8, 1501), (352, 8, 86), (360, 8, 391),
                (368, 8, 4), (376, 8, 30), (384, 8, 111), (392, 8, 302), (1472, 8, 222572231271),
                (1480, 8, 239616263739), (1488, 8, 239864617843), (1496, 8, 245521385346),
                (1504, 8, 253377075939), (1512, 8, 253377538826), (1520, 8, 253377928854),
                (1528, 8, 253409840633), (1536, 8, 253409840633), (1544, 8, 253410913095), (1568, 8, 19),
                (1576, 8, 41864154532), (1584, 8, 41864157864), (1592, 8, 41958801579),
                (1600, 8, 42426080768), (1608, 8, 42426858743), (1616, 8, 42426858959),
                (1624, 8, 269324025701), (1632, 8, 28), (1648, 8, 10145), (1656, 8, 1574), (1664, 8, 13),
                (1672, 8, 66641029291), (1680, 8, 4686994844392),
            ]),
            ("oracle", 24, &[
                (0, 8, 51273290), (8, 8, 51273291), (16, 4, 6999), (20, 4, 7462),
            ]),
            ("base_vault", 72, &[
                (64, 8, 45751279),
            ]),
            ("quote_vault", 165, &[
                (64, 8, 274083630),
            ]),
        ],
        &[
            (18404, true, 7000, 718640085868),
            (591, false, 7001, 161),
            (336885, false, 0, 91909),
            (168239, true, 7005, 6569402814951),
            (158714355, false, 0, 43300437),
            (1900, true, 7000, 74191271633),
        ],
    ),
    (
        &[
            ("pool", 2057, &[
                (1980, 1, 9), (1981, 1, 6), (16, 8, 1762073964), (24, 8, 59), (32, 8, 7004), (40, 8, 7003),
                (64, 8, 1), (400, 8, 5), (240, 8, 3), (248, 8, 2866), (256, 8, 4), (264, 8, 17), (272, 8, 3),
                (280, 8, 7), (288, 8, 250), (304, 8, 30), (312, 8, 7599), (328, 8, 5), (336, 8, 13),
                (344, 8, 1949), (352, 8, 8), (360, 8, 60), (368, 8, 3), (376, 8, 7), (384, 8, 4),
                (392, 8, 17), (1480, 8, 1006), (1488, 8, 3013219), (1496, 8, 3212190),
                (1504, 8, 79756552460), (1512, 8, 79756585494), (1520, 8, 79756620323),
                (1528, 8, 79756620325), (1536, 8, 79756650161), (1544, 8, 79756650170), (1552, 8, 3287485),
                (1560, 8, 53647748150), (1568, 8, 53647748153), (1576, 8, 53647748153),
                (1584, 8, 53647748240), (1592, 8, 53651863332), (1600, 8, 53769250811),
                (1608, 8, 53769250816), (1616, 8, 53784161399), (1624, 8, 53787131644), (1632, 8, 155321),
                (1648, 8, 422029473754), (1656, 8, 768677303), (1664, 8, 198), (1672, 8, 424),
                (1680, 8, 38357088912),
            ]),
            ("oracle", 24, &[
                (0, 8, 297282509), (8, 8, 297283145), (16, 4, 7003), (20, 4, 1000000),
            ]),
            ("base_vault", 72, &[
                (64, 8, 16170948),
            ]),
            ("quote_vault", 165, &[
                (64, 8, 7),
            ]),
        ],
        &[
            (10875215533, false, 7004, 192),
            (3880211438, true, 7009, 102212939049722040),
            (1522, false, 0, 0),
            (150713174, true, 7004, 3970201443304037),
            (568741, false, 0, 0),
            (6, false, 7009, 0),
        ],
    ),
    (
        &[
            ("pool", 2057, &[
                (1980, 1, 9), (1981, 1, 6), (16, 8, 6891), (24, 8, 904), (32, 8, 7002), (40, 8, 6998),
                (64, 8, 14539), (240, 8, 191), (248, 8, 1), (256, 8, 387), (264, 8, 196), (272, 8, 3879),
                (280, 8, 1), (288, 8, 2), (296, 8, 9), (304, 8, 187), (320, 8, 6), (336, 8, 52),
                (344, 8, 1109), (352, 8, 922), (368, 8, 114), (376, 8, 5810), (384, 8, 383), (392, 8, 101),
                (1480, 8, 4102951), (1488, 8, 131964996040), (1496, 8, 131964996135),
                (1504, 8, 136819938032), (1512, 8, 148923156862), (1520, 8, 148923158622),
                (1528, 8, 148923158625), (1536, 8, 148942800562), (1544, 8, 148942800667),
                (1560, 8, 9935940), (1568, 8, 9935963), (1576, 8, 9942060), (1584, 8, 11639417),
                (1592, 8, 11788866), (1600, 8, 14641161), (1608, 8, 14641169), (1616, 8, 14641180),
                (1624, 8, 4824877082), (1632, 8, 1), (1648, 8, 191124691441), (1656, 8, 3111),
                (1664, 8, 864936262953), (1672, 8, 191124691441), (1680, 8, 1926636668),
            ]),
            ("oracle", 24, &[
                (0, 8, 228011982), (8, 8, 228012240), (16, 4, 6982), (20, 4, 1000000),
            ]),
            ("base_vault", 72, &[
            ]),
            ("quote_vault", 165, &[
                (64, 8, 766471018),
            ]),
        ],
        &[
            (3672908, false, 7002, 16108320),
            (563, false, 7002, 2469),
            (111616, false, 7002, 489514),
            (430, true, 7002, 98),
            (285809, false, 7007, 1253473),
            (155742, true, 7007, 35511),
        ],
    ),
    (
        &[
            ("pool", 2057, &[
                (1980, 1, 6), (1981, 1, 6), (16, 8, 19962), (24, 8, 13415501626), (32, 8, 7005),
                (40, 8, 7003), (64, 8, 15651786), (400, 8, 2), (1689, 1, 3), (240, 8, 25), (248, 8, 59),
                (256, 8, 5045), (264, 8, 15), (272, 8, 4), (280, 8, 13), (288, 8, 1236), (304, 8, 10),
                (312, 8, 7), (320, 8, 361), (336, 8, 3), (344, 8, 78), (352, 8, 64), (360, 8, 3),
                (368, 8, 10), (376, 8, 61), (384, 8, 970), (392, 8, 1816), (1480, 8, 89), (1488, 8, 4444),
                (1496, 8, 4445), (1504, 8, 2076032), (1512, 8, 1566612552), (1520, 8, 1566612552),
                (1528, 8, 1566644361), (1536, 8, 1570398700), (1544, 8, 1703004992), (1560, 8, 81),
                (1568, 8, 81), (1576, 8, 81), (1584, 8, 10383912), (1592, 8, 10383912), (1600, 8, 10383952),
                (1608, 8, 11947142), (1616, 8, 11949891), (1624, 8, 189276010), (1632, 8, 24539060),
                (1648, 8, 16927752), (1656, 8, 101157408), (1664, 8, 267285), (1672, 8, 333066),
                (1680, 8, 31048801),
            ]),
            ("oracle", 24, &[
                (0, 8, 8337994), (8, 8, 8337996), (16, 4, 7004), (20, 4, 15775),
            ]),
            ("base_vault", 72, &[
                (64, 8, 11),
            ]),
            ("quote_vault", 165, &[
                (64, 8, 52539794290),
            ]),
        ],
        &[
            (4230629518275, true, 7004, 99976121461115),
            (99, false, 7004, 4),
            (4589229757968374, true, 7003, 108450383025429630),
            (0, false, 7003, 0),
            (19, true, 7003, 448),
            (816, true, 7008, 19283),
        ],
    ),
    (
        &[
            ("pool", 2048, &[
                (1980, 1, 6), (1981, 1, 6), (16, 8, 16528120), (24, 8, 935767), (32, 8, 7006), (40, 8, 7003),
                (64, 8, 607261912), (400, 8, 5), (1689, 1, 11), (240, 8, 6863), (264, 8, 11), (272, 8, 4765),
                (280, 8, 2), (296, 8, 1), (304, 8, 3529), (328, 8, 1), (336, 8, 1710), (344, 8, 1),
                (352, 8, 3), (360, 8, 2), (392, 8, 85), (1480, 8, 16528545), (1488, 8, 16828620),
                (1496, 8, 16839117), (1504, 8, 16839135), (1512, 8, 16839207), (1520, 8, 51582808807),
                (1528, 8, 51582850612), (1536, 8, 96411182449), (1544, 8, 96411182450),
                (1560, 8, 9182947477), (1568, 8, 9265825602), (1576, 8, 32819384210), (1584, 8, 32819385952),
                (1592, 8, 32820049174), (1600, 8, 32820670356), (1608, 8, 33107902536),
                (1616, 8, 33200797008), (1624, 8, 33454274921), (1632, 8, 22096873107),
                (1648, 8, 3192974617776), (1656, 8, 209), (1664, 8, 6887568), (1672, 8, 864336551078),
                (1680, 8, 399973),
            ]),
            ("oracle", 24, &[
                (0, 8, 294320789), (8, 8, 294321392), (16, 4, 7004), (20, 4, 1000000),
            ]),
            ("base_vault", 72, &[
                (64, 8, 486),
            ]),
            ("quote_vault", 165, &[
                (64, 8, 171342738),
            ]),
        ],
        &[
            (104, true, 7009, 30609),
            (7435869050521, false, 7004, 23877951036),
            (17887525, false, 7005, 57445),
            (11, false, 7009, 0),
            (996419, true, 0, 293266826),
            (3203, true, 7004, 942704),
        ],
    ),
    (
        &[
            ("pool", 2048, &[
                (1980, 1, 6), (1981, 1, 6), (16, 8, 192703608), (24, 8, 738114480), (32, 8, 6996),
                (40, 8, 6999), (64, 8, 1565144535), (400, 8, 202), (248, 8, 70), (256, 8, 361),
                (264, 8, 123), (280, 8, 4), (288, 8, 7677), (296, 8, 24), (312, 8, 1936), (328, 8, 5),
                (336, 8, 43), (344, 8, 61), (376, 8, 604), (384, 8, 647), (392, 8, 2),
                (1472, 8, 235395750930), (1480, 8, 235395750945), (1488, 8, 235400047558),
                (1496, 8, 278482327908), (1504, 8, 278482363574), (1512, 8, 278482364254),
                (1520, 8, 278484212897), (1528, 8, 278484212909), (1536, 8, 278484212924),
                (1544, 8, 278484212990), (1560, 8, 10319004226), (1568, 8, 10319252700),
                (1576, 8, 10326361593), (1584, 8, 10326361593), (1592, 8, 10326363677),
                (1600, 8, 10326363993), (1608, 8, 10326364338), (1616, 8, 10437987299),
                (1624, 8, 10437987312), (1632, 8, 2146913), (1656, 8, 500881595), (1664, 8, 1363144128063),
                (1672, 8, 555846), (1680, 8, 1118177287264),
            ]),
            ("oracle", 24, &[
                (0, 8, 1504533), (8, 8, 1504533), (16, 4, 6997), (20, 4, 373),
            ]),
            ("base_vault", 72, &[
                (64, 8, 1845),
            ]),
            ("quote_vault", 165, &[
                (64, 8, 169526),
            ]),
        ],
        &[
            (54, true, 7005, 81),
            (314855118, true, 0, 473709915),
            (6228560, true, 7005, 9371074),
            (777, false, 0, 516),
            (31984, true, 0, 48120),
            (5338, false, 7000, 3548),
        ],
    ),
    (
        &[
            ("pool", 2057, &[
                (1980, 1, 9), (1981, 1, 6), (16, 8, 892888349406), (24, 8, 402323976), (32, 8, 7006),
                (40, 8, 7005), (64, 8, 4), (400, 8, 48), (240, 8, 152), (248, 8, 2), (256, 8, 6),
                (264, 8, 2448), (272, 8, 56), (280, 8, 53), (288, 8, 5), (304, 8, 19), (312, 8, 43),
                (328, 8, 47), (336, 8, 67), (344, 8, 128), (352, 8, 1136), (360, 8, 154), (368, 8, 3074),
                (376, 8, 13), (384, 8, 29), (392, 8, 6), (1472, 8, 58955), (1480, 8, 58955),
                (1488, 8, 365624435), (1496, 8, 365864231), (1504, 8, 365864232), (1512, 8, 365864232),
                (1520, 8, 365864332), (1528, 8, 4119574713), (1536, 8, 4119575850), (1544, 8, 4119575852),
                (1560, 8, 16166), (1568, 8, 113004), (1576, 8, 113005), (1584, 8, 117183704648),
                (1592, 8, 117183704705), (1600, 8, 117191252150), (1608, 8, 117191277127),
                (1616, 8, 163895663751), (1624, 8, 163899696838), (1632, 8, 216550458), (1648, 8, 231310844),
                (1656, 8, 133557690), (1664, 8, 24494), (1672, 8, 47776), (1680, 8, 1019317505584),
            ]),
            ("oracle", 24, &[
                (0, 8, 51169470), (8, 8, 51169470), (16, 4, 7003), (20, 4, 72),
            ]),
            ("base_vault", 72, &[
                (64, 8, 933136),
            ]),
            ("quote_vault", 165, &[
                (64, 8, 106),
            ]),
        ],
        &[
            (33208, false, 0, 0),
            (461, false, 7006, 0),
            (60341, true, 0, 65866690895),
            (55647, false, 7006, 0),
            (0, false, 7011, 0),
            (2743297192779167, false, 7007, 1288455608),
        ],
    ),
];

fn account(len: usize, fields: Fields) -> Vec<u8> {
    let mut data = vec![0u8; len];
    for (offset, width, value) in fields {
        let bytes = value.to_le_bytes();
        for i in 0..*width as usize {
            data[offset + i] = bytes[i];
        }
    }
    data
}

#[test]
fn goonfi_samples() {
    for (k, (updates, quotes)) in SAMPLES.iter().enumerate() {
        let mut pool = create_protocol("goonfi").unwrap();
        for (role, len, fields) in updates.iter() {
            let data = account(*len, fields);
            assert!(pool.can_apply(role, &data));
            pool.apply_update(role, &data, 1000);
        }
        assert!(pool.is_ready());
        for (amount, b2q, slot, expected) in quotes.iter() {
            let direction = if *b2q { "B2Q" } else { "Q2B" };
            let got = match pool.try_quote_single(*amount, direction, *slot) {
                None => -1,
                Some(None) => 0,
                Some(Some(out)) => out as i128,
            };
            assert_eq!(got, *expected, "sample {k}: {amount} {direction} at {slot}");

            let tier = TierInput { micro_usd: *amount as u128, usd_e21: 0, base_amount: Some(*amount) };
            if let Some(rows) = pool.try_compute_quotes(*slot, &[tier]) {
                if !*b2q && *expected > 0 {
                    let row = rows.iter().find(|r| r.direction == "Q2B").unwrap();
                    assert_eq!((row.input_amount, row.output_amount as i128), (*amount, *expected), "sample {k}");
                }
            }
        }
    }
}
