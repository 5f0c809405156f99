//! Pools of sampled state and what they pay.
use amm_replay::protocols::create_protocol;
use amm_replay::protocols::quotes::TierInput;

type Fields = &'static [(usize, u8, u128)];
type Update = (&'static str, usize, Fields);
type Sample = (&'static [Update], &'static [(u64, u64, i128, i128)]);

/// Account updates by role, size and fields; then amounts of base and quote
/// tokens with what comes out: nothing at zero, out of range below it.
const SAMPLES: &[Sample] = &[
    (
        &[
            ("pool", 1544, &[
                (235, 2, 1), (237, 16, 4412942), (253, 16, 5647135299345), (269, 4, 4294667296),
            ]),
            ("tick_array_0", 10240, &[
                (7000, 4, 4294667236), (1204, 16, 340282366920938463463374607431767827366),
                (1220, 16, 384091),
            ]),
        ],
        &[
            (169327978, 1, 0, 0),
            (2980477, 0, 0, 0),
            (7557, 64036, 0, 0),
            (8242327, 469347, 0, 0),
        ],
    ),
    (
        &[
            ("pool", 1544, &[
                (235, 2, 1), (237, 16, 5560923), (253, 16, 74695358619817180060), (269, 4, 27972),
            ]),
            ("tick_array_1", 10240, &[
                (7000, 4, 27960), (3872, 16, 587229), (3888, 16, 587230), (4916, 16, 675602),
                (4932, 16, 675603), (5264, 16, 887828), (5280, 16, 887829),
            ]),
            ("tick_array_0", 10240, &[
                (7000, 4, 27900), (160, 16, 8987), (176, 16, 8988), (3176, 16, 1373363), (3192, 16, 1373364),
                (4220, 16, 340282366920938463463374607431767253717), (4236, 16, 957740), (4452, 16, 359773),
                (4468, 16, 359774), (4916, 16, 377531), (4932, 16, 377532), (5264, 16, 269583),
                (5280, 16, 269584),
            ]),
        ],
        &[
            (82540991211, 74671, 16732934, 4526),
            (8, 5973123, 0, 304930),
            (8, 118756, 0, 7189),
            (415, 45017, 0, 2731),
        ],
    ),
    (
        &[
            ("pool", 1544, &[
                (235, 2, 64), (237, 16, 1000021), (253, 16, 74705818606849524518), (269, 4, 27974),
            ]),
            ("tick_array_0", 10240, &[
                (7000, 4, 23040), (508, 16, 340282366920938463463374607431768200099), (524, 16, 11358),
                (1900, 16, 135451), (1916, 16, 135452),
            ]),
        ],
        &[
            (5, 276491179225, 0, 0),
            (0, 234, 0, 0),
            (17, 2, 0, 0),
            (3107611, 662, 3635167, 0),
        ],
    ),
    (
        &[
            ("pool", 1544, &[
                (235, 2, 8), (237, 16, 249684019998958), (253, 16, 2259168286972925019),
                (269, 4, 4294925296),
            ]),
            ("tick_array_1", 10240, &[
                (7000, 4, 4294925056), (2132, 16, 47876725534037), (2148, 16, 47876725534038),
                (2364, 16, 340282366920938463463374601357574659609), (2380, 16, 6074193551848),
                (2712, 16, 340282366920938463463374549904019423218), (2728, 16, 57527748788239),
                (6540, 16, 52567508337320), (6556, 16, 52567508337321),
            ]),
            ("tick_array_0", 10240, &[
                (7000, 4, 4294924576), (5264, 16, 340282366920938463463374581755332786032),
                (5280, 16, 25676435425425),
            ]),
        ],
        &[
            (23519142241, 254250, 0, 16908905),
            (4713645678112, 64, 0, 4200),
            (487622, 56336468, 0, 3746657503),
            (3051005, 2, 0, 66),
        ],
    ),
    (
        &[
            ("pool", 1544, &[
                (235, 2, 8), (237, 16, 1533883), (253, 16, 76747024656572870549425817701), (269, 4, 443000),
            ]),
            ("tick_array_1", 10240, &[
                (7000, 4, 442560),
            ]),
            ("tick_array_0", 10240, &[
                (7000, 4, 442080), (740, 16, 340282366920938463463374607431768138354), (756, 16, 73103),
                (1668, 16, 40320), (1684, 16, 40321), (2480, 16, 265061), (2496, 16, 265062),
                (3408, 16, 138952), (3424, 16, 138953), (5148, 16, 340282366920938463463374607431767938640),
                (5164, 16, 272817),
            ]),
        ],
        &[
            (122202812, 2050, 5994340619380646, 0),
            (0, 52809108830320, 0, 0),
            (510397, 0, 5994340619380646, 0),
            (5, 453751303, 222385142237566, 0),
        ],
    ),
    (
        &[
            ("pool", 1544, &[
                (235, 2, 4), (237, 16, 6039247544), (253, 16, 18447207581671787690),
            ]),
            ("tick_array_3", 10240, &[
                (7000, 4, 480), (2828, 16, 1397945934), (2844, 16, 1397945935),
                (3640, 16, 340282366920938463463374607431531463580), (3656, 16, 236747877),
                (5148, 16, 340282366920938463463374607431596275030), (5164, 16, 171936427),
                (5960, 16, 340282366920938463463374607430548951708), (5976, 16, 1219259749),
                (6540, 16, 340282366920938463463374607430270502058), (6556, 16, 1497709399),
                (6656, 16, 1158738082), (6672, 16, 1158738083),
            ]),
            ("tick_array_1", 10240, &[
                (2828, 16, 340282366920938463463374607431178220836), (2844, 16, 589990621),
                (6772, 16, 1366733629), (6788, 16, 1366733630),
            ]),
            ("tick_array_2", 10240, &[
                (7000, 4, 240), (3756, 16, 340282366920938463463374607431762641685), (3772, 16, 5569772),
                (5496, 16, 340282366920938463463374607431384363940), (5512, 16, 383847517),
                (5612, 16, 340282366920938463463374607430820707980), (5628, 16, 947503477),
                (6656, 16, 724726515), (6672, 16, 724726516),
            ]),
            ("tick_array_0", 10240, &[
                (7000, 4, 4294967056), (2828, 16, 340282366920938463463374607430579495360),
                (2844, 16, 1188716097),
            ]),
        ],
        &[
            (61444, 6, 0, 4),
            (28693004, 61167, 0, 61010),
            (66825, 1278, 0, 1273),
            (3787902, 470, 0, 467),
        ],
    ),
    (
        &[
            ("pool", 1544, &[
                (235, 2, 1), (237, 16, 4453240824), (253, 16, 2063825981316208539), (269, 4, 4294923487),
            ]),
            ("tick_array_1", 10240, &[
                (7000, 4, 4294923436), (740, 16, 301313351), (756, 16, 301313352),
                (856, 16, 340282366920938463463374607430890182912), (872, 16, 878028545),
                (4336, 16, 340282366920938463463374607431402457295), (4352, 16, 365754162),
                (4568, 16, 821856870), (4584, 16, 821856871),
                (5264, 16, 340282366920938463463374607430666697726), (5280, 16, 1101513731),
                (5496, 16, 340282366920938463463374607431504801438), (5512, 16, 263410019),
            ]),
            ("tick_array_0", 10240, &[
                (7000, 4, 4294923376), (4800, 16, 340282366920938463463374607430839252430),
                (4816, 16, 928959027), (5844, 16, 471239133), (5860, 16, 471239134),
            ]),
        ],
        &[
            (16278576003, 27597873771987, 715279476, 39802923212),
            (1, 2351415984, 0, 32830022513),
            (1254324861, 2401240, 715279476, 190440223),
            (0, 7, 0, 479),
        ],
    ),
    (
        &[
            ("pool", 1544, &[
                (235, 2, 4), (237, 16, 1000037), (253, 16, 8582115168923085364), (269, 4, 4294951991),
            ]),
            ("tick_array_0", 10240, &[
                (7000, 4, 4294951696), (856, 16, 43225), (872, 16, 43226),
                (1204, 16, 340282366920938463463374607431768200119), (1220, 16, 11338),
                (1320, 16, 340282366920938463463374607431768089346), (1336, 16, 122111),
                (3524, 16, 340282366920938463463374607431768160288), (3540, 16, 51169),
            ]),
            ("tick_array_1", 10240, &[
                (7000, 4, 4294951936), (2364, 16, 340282366920938463463374607431768034595),
                (2380, 16, 176862), (2712, 16, 340282366920938463463374607431767999723), (2728, 16, 211734),
                (3408, 16, 340282366920938463463374607431768198211), (3424, 16, 13246),
                (4568, 16, 340282366920938463463374607431767977797), (4584, 16, 233660),
            ]),
            ("tick_array_2", 10240, &[
                (7000, 4, 4294952176), (44, 16, 167675), (60, 16, 167676), (392, 16, 193732),
                (408, 16, 193733), (5612, 16, 79207), (5628, 16, 79208), (5844, 16, 226417),
                (5860, 16, 226418), (6656, 16, 56298), (6672, 16, 56299),
            ]),
            ("tick_array_3", 10240, &[
                (7000, 4, 4294952416),
            ]),
        ],
        &[
            (114949748150307, 8, 530315, 32),
            (3786, 22128, 0, 96357),
            (1877794, 8009442228597, 530315, 2319905),
            (34270162179, 335, 530315, 1542),
        ],
    ),
    (
        &[
            ("pool", 1544, &[
                (235, 2, 8), (237, 16, 4927242), (253, 16, 1568945710862954990), (269, 4, 4294918003),
            ]),
            ("tick_array_0", 10240, &[
                (7000, 4, 4294917376), (4336, 16, 510013), (4352, 16, 510014),
            ]),
            ("tick_array_1", 10240, &[
                (7000, 4, 4294917856), (1088, 16, 605043), (1104, 16, 605044), (1552, 16, 229764),
                (1568, 16, 229765), (4916, 16, 340282366920938463463374607431767359307), (4932, 16, 852150),
            ]),
            ("tick_array_2", 10240, &[
                (7000, 4, 4294918336), (1204, 16, 340282366920938463463374607431767718729),
                (1220, 16, 492728), (6192, 16, 340282366920938463463374607431768080350), (6208, 16, 131107),
            ]),
        ],
        &[
            (58, 37100909, 0, 40527700),
            (1510630234574, 3051187066, 305643, 40843124),
            (958194, 16, 0, 2073),
            (133, 927330510, 0, 40834164),
        ],
    ),
    (
        &[
            ("pool", 1544, &[
                (235, 2, 64), (237, 16, 83737535467313), (253, 16, 5349749689575035201),
                (269, 4, 4294942538),
            ]),
            ("tick_array_1", 10240, &[
                (7000, 4, 4294940416), (1784, 16, 340282366920938463463374593601278115751),
                (1800, 16, 13830490095706), (3988, 16, 340282366920938463463374589239590259240),
                (4004, 16, 18192177952217), (6888, 16, 15445049975125), (6904, 16, 15445049975126),
            ]),
            ("tick_array_0", 10240, &[
                (7000, 4, 4294936576), (1204, 16, 7327531617863), (1220, 16, 7327531617864),
                (2828, 16, 19789717933349), (2844, 16, 19789717933350),
            ]),
            ("tick_array_2", 10240, &[
                (7000, 4, 4294944256), (624, 16, 19439904399526), (640, 16, 19439904399527),
                (2944, 16, 340282366920938463463374602912834502549), (2960, 16, 4518933708908),
                (4800, 16, 340282366920938463463374594667404581825), (4816, 16, 12764363629632),
                (5032, 16, 340282366920938463463374587640349241005), (5048, 16, 19791418970452),
                (6076, 16, 340282366920938463463374595170183831042), (6092, 16, 12261584380415),
                (6308, 16, 8135307503699), (6324, 16, 8135307503700),
            ]),
            ("tick_array_3", 10240, &[
                (7000, 4, 4294948096),
            ]),
        ],
        &[
            (12680, 106, 0, 1248),
            (4762, 638, 0, 7561),
            (396179, 8, 0, 83),
            (0, 12, 0, 130),
        ],
    ),
    (
        &[
            ("pool", 1544, &[
                (235, 2, 128), (237, 16, 15080611294782), (253, 16, 1692962614994284661),
                (269, 4, 4294919525),
            ]),
            ("tick_array_0", 10240, &[
                (7000, 4, 4294905856), (4336, 16, 213824533935), (4352, 16, 213824533936),
            ]),
            ("tick_array_3", 10240, &[
                (7000, 4, 4294928896), (6888, 16, 2568069453237), (6904, 16, 2568069453238),
            ]),
            ("tick_array_1", 10240, &[
                (7000, 4, 4294913536), (4568, 16, 340282366920938463463374604190547069687),
                (4584, 16, 3241221141770), (5728, 16, 2828215992379), (5744, 16, 2828215992380),
                (6772, 16, 340282366920938463463374605707662512691), (6788, 16, 1724105698766),
            ]),
            ("tick_array_2", 10240, &[
                (7000, 4, 4294921216), (1436, 16, 3079742473642), (1452, 16, 3079742473643),
                (4684, 16, 2873103068300), (4700, 16, 2873103068301), (5960, 16, 1679704069406),
                (5976, 16, 1679704069407),
            ]),
        ],
        &[
            (460395, 224, 0, 26475),
            (164613496505631, 9, 0, 949),
            (122927352, 347, 0, 41079),
            (15432246156, 19630095, 0, 2324737139),
        ],
    ),
    (
        &[
            ("pool", 1544, &[
                (235, 2, 1), (237, 16, 1), (253, 16, 7560841371089266306), (269, 4, 4294949457),
            ]),
            ("tick_array_2", 10240, &[
                (7000, 4, 4294949476), (276, 16, 340282366920938463463374607431768211186), (292, 16, 271),
                (1784, 16, 340282366920938463463374607099865383486), (1800, 16, 331902827971),
                (3292, 16, 340282366920938463431116321027649199267), (3308, 16, 32258286404119012190),
                (6772, 16, 14710), (6788, 16, 14711),
            ]),
            ("tick_array_1", 10240, &[
                (7000, 4, 4294949416), (1552, 16, 340282366920938463462565814917858837823),
                (1568, 16, 808792513909373634), (3756, 16, 979726), (3772, 16, 979727),
                (3872, 16, 340282366920938463455437938550286260312), (3888, 16, 7936668881481951145),
                (6424, 16, 340282366920938463463366624432683270350), (6440, 16, 7982999084941107),
                (6772, 16, 485356288423903878885377), (6788, 16, 485356288423903878885378),
            ]),
            ("tick_array_0", 10240, &[
                (7000, 4, 4294949356), (856, 16, 4665140447094974138), (872, 16, 4665140447094974139),
                (2712, 16, 103282885120940032794376), (2728, 16, 103282885120940032794377),
                (6540, 16, 340282366876709602468025482310464610718),
                (6556, 16, 44228860995349125121303600739),
            ]),
        ],
        &[
            (130856, 0, 0, 0),
            (177031, 3218869921388, 0, 0),
            (6940265, 27776, 0, 0),
            (24912, 169498410996, 0, 0),
        ],
    ),
];

fn account(len: usize, fields: Fields) -> Vec<u8> {
    let mut data = vec![0u8; len];
    for (offset, width, value) in fields {
        let bytes = value.to_le_bytes();
        for i in 0..*width as usize {
            data[offset + i] = bytes[i];
        }
    }
    data
}

#[test]
fn raydium_clmm_samples() {
    for (k, (updates, quotes)) in SAMPLES.iter().enumerate() {
        let mut pool = create_protocol("raydium_clmm").unwrap();
        for (role, len, fields) in updates.iter() {
            let data = account(*len, fields);
            assert!(pool.can_apply(role, &data));
            pool.apply_update(role, &data, 1700000000);
        }
        for (base, quote, b2q, q2b) in quotes.iter() {
            let tier = TierInput {
                micro_usd: *quote as u128,
                usd_e21: 0,
                base_amount: Some(*base),
            };
            let mut got = (0i128, 0i128);
            match pool.try_compute_quotes(1700000000, &[tier]) {
                None => got = (-1, -1),
                Some(rows) => {
                    for row in rows.iter() {
                        if row.direction == "B2Q" {
                            assert_eq!(row.input_amount, *base);
                            got.0 = row.output_amount as i128;
                        } else {
                            assert_eq!(row.input_amount, *quote);
                            got.1 = row.output_amount as i128;
                        }
                    }
                }
            }
            assert_eq!(got, (*b2q, *q2b), "sample {k}: {base} and {quote}");
        }
    }
}
