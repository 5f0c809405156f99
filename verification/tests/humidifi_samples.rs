//! Pools of sampled state and what they pay.
use amm_replay::protocols::create_protocol;
use amm_replay::protocols::quotes::TierInput;

type Fields = &'static [(usize, u8, u128)];
type Update = (&'static str, usize, Fields);
type Sample = (&'static [Update], &'static [(u64, bool, u64, i128)]);

/// Account updates by role, size and fields; then amounts with their direction,
/// their slot and what comes out: nothing at zero, out of range below it.
const SAMPLES: &[Sample] = &[
    (
        &[
            ("pool", 1728, &[
                (1720, 8, 3), (544, 8, 1636756192745716774), (552, 8, 5091621654977657673),
                (576, 8, 13394703623126212806), (592, 8, 7970776174134238338), (48, 8, 10819981511939377284),
                (0, 8, 7625034826406274515), (176, 8, 4681572970359378708), (144, 8, 13764045186263742534),
                (728, 8, 5175317868634051589), (80, 8, 10818894471766759975), (200, 8, 4682417395542741432),
                (240, 8, 4679321192151916320), (224, 8, 4681010080535698059), (256, 8, 4679884163449161191),
                (336, 8, 4675943453641063164), (280, 8, 4678476698503743564), (304, 8, 4677069304888752444),
                (320, 8, 4677632260554688416), (736, 8, 5175036389362310449), (744, 8, 5174754897205658726),
                (752, 8, 5176725230633030659), (208, 8, 4680447121992386495), (608, 8, 7970776174128919008),
                (616, 8, 7970776174128922186),
            ]),
            ("base_vault", 72, &[
                (64, 8, 9696208),
            ]),
            ("quote_vault", 165, &[
                (64, 8, 1262904091),
            ]),
        ],
        &[
            (42, true, 4000, 7),
            (24392108848636, true, 4000, -1),
            (1198654186084226, false, 4000, -1),
            (486275, true, 4005, 87637),
            (1, false, 4000, 0),
            (43985751, false, 4000, 243810),
        ],
    ),
    (
        &[
            ("pool", 1733, &[
                (544, 8, 7701416040953510950), (552, 8, 5091621654840766782), (576, 8, 13373360935030034270),
                (592, 8, 7970776174128911166), (48, 8, 10820017366415645488), (0, 8, 7625034826386396633),
                (176, 8, 4681575355250845081), (144, 8, 13764045186263737852), (728, 8, 5175318564418753593),
                (80, 8, 10818894471766759973), (200, 8, 4682417408174516872), (240, 8, 4679321086274593279),
                (224, 8, 4681010080535676566), (256, 8, 4679884163643035704), (336, 8, 4675943453644490664),
                (280, 8, 4678476694780014906), (304, 8, 4677069302011463594), (320, 8, 4677632260554687596),
                (736, 8, 5175036372182439159), (744, 8, 5174755897933042933), (752, 8, 5176725234927998196),
                (208, 8, 4680447121992386494), (608, 8, 7970776174128919000), (616, 8, 7970776174128922186),
            ]),
            ("base_vault", 72, &[
                (64, 8, 7229),
            ]),
            ("quote_vault", 165, &[
                (64, 8, 1582593),
            ]),
        ],
        &[
            (843425847, false, 4011, 3465),
            (0, false, 4005, 0),
            (2225866449, false, 4005, 3467),
            (21, false, 4011, 0),
            (30934904, false, 4011, 3385),
            (132, false, 4005, 0),
        ],
    ),
    (
        &[
            ("pool", 1733, &[
                (1720, 8, 9), (544, 8, 13054225673060056102), (552, 8, 5091621654840767449),
                (576, 8, 13360856170704574502), (592, 8, 7970776175344745987), (48, 8, 10820020361218178046),
                (0, 8, 7625034826478802172), (176, 8, 4681572970671489139), (144, 8, 13764045186263742533),
                (728, 8, 5175317748374967296), (80, 8, 10818894471766759973), (200, 8, 4682417395393395894),
                (240, 8, 4679321038240672391), (224, 8, 4681010081219675773), (256, 8, 4679884163444585247),
                (336, 8, 4675943453644489925), (280, 8, 4678476698369525673), (304, 8, 4677069302011462871),
                (320, 8, 4677632464624812473), (736, 8, 5175036526801261569), (744, 8, 5174754910090565214),
                (752, 8, 5176725329417278467), (208, 8, 4680447121992386495), (608, 8, 7970776174128919008),
                (616, 8, 7970776174128922186),
            ]),
            ("base_vault", 72, &[
                (64, 8, 1485113698),
            ]),
            ("quote_vault", 165, &[
                (64, 8, 32606117806),
            ]),
        ],
        &[
            (96680980589, true, 4000, 5862959792002),
            (23, true, 4051, 0),
            (274, false, 4000, 4),
            (13522004, true, 4011, 0),
            (111873212248616, true, 4000, 6757225735250479),
            (5885715, true, 4051, 0),
        ],
    ),
    (
        &[
            ("pool", 1728, &[
                (544, 8, 6295167057307073574), (552, 8, 5091621654840767453), (576, 8, 13355404644151526220),
                (592, 8, 7970776174128919018), (48, 8, 10820020423212947984), (0, 8, 7630556208573475089),
                (176, 8, 4681572970359387393), (144, 8, 13764045186263742533), (728, 8, 5175317864339084505),
                (80, 8, 10818894471766759975), (200, 8, 4682417408175680519), (240, 8, 4679321204905936048),
                (224, 8, 5227862882085341817), (256, 8, 4681225075779711193), (336, 8, 4675943456509602347),
                (280, 8, 4678476524553548624), (304, 8, 4677069313060010992), (320, 8, 4677632260554687537),
                (736, 8, 5175036355002569735), (744, 8, 5174754910090564612), (752, 8, 5176725174798455817),
                (208, 8, 4680447121992386495), (608, 8, 7970776174128919000), (616, 8, 7970776174128922186),
            ]),
            ("base_vault", 72, &[
                (64, 8, 1),
            ]),
            ("quote_vault", 165, &[
                (64, 8, 9),
            ]),
        ],
        &[
            (254, false, 4005, 53726),
            (0, false, 4005, 0),
            (40262727, false, 4051, 0),
            (10169107, false, 4000, -1),
            (10176129022, true, 4051, 0),
            (37111, false, 4051, 0),
        ],
    ),
    (
        &[
            ("pool", 1728, &[
                (544, 8, 13350337348559666214), (552, 8, 5091621654840767449),
                (576, 8, 13342252594889368294), (592, 8, 7970776174317179672), (48, 8, 10820006129282575898),
                (0, 8, 7625048922343288168), (176, 8, 4681572970359359418), (144, 8, 13764042911798433576),
                (728, 8, 5175318023252874257), (80, 8, 10818894471766759974), (200, 8, 4682417408174196355),
                (240, 8, 4679321186186318208), (224, 8, 4681010086569193505), (256, 8, 4679884163447462871),
                (336, 8, 4675943453644489283), (280, 8, 4678476710899566327), (304, 8, 4677069309293401247),
                (320, 8, 4677632260554687763), (736, 8, 5175037540413544017), (744, 8, 5174750864231372371),
                (752, 8, 5176725230633030659), (208, 8, 4680447121992386494), (608, 8, 7970776174128919008),
                (616, 8, 7970776174128922186),
            ]),
            ("base_vault", 72, &[
                (64, 8, 352769349),
            ]),
            ("quote_vault", 165, &[
                (64, 8, 65367233600),
            ]),
        ],
        &[
            (3, false, 4011, 0),
            (263, false, 4005, 0),
            (2447995, true, 4051, 0),
            (0, false, 4000, 0),
            (198202322951, true, 4011, 0),
            (31111, true, 4011, 0),
        ],
    ),
    (
        &[
            ("pool", 1728, &[
                (544, 8, 14252183173940608038), (552, 8, 5091621654840821170),
                (576, 8, 12683359044051960724), (592, 8, 7970776174204557638), (48, 8, 10818593585806613236),
                (0, 8, 7495015529689276644), (176, 8, 4681579768348001769), (144, 8, 13764045099736716630),
                (728, 8, 5175317868634051585), (80, 8, 10818894471766759975), (200, 8, 4682417408657199884),
                (240, 8, 4679321204905936470), (224, 8, 6837323123944775599), (256, 8, 4679884104309030194),
                (336, 8, 4675941499787114965), (280, 8, 4678476695318723002), (304, 8, 4677069305688097020),
                (320, 8, 4677632260554609097), (736, 8, 5175037433039361025), (744, 8, 5174755215033242784),
                (752, 8, 5176725230633031179), (208, 8, 4680447121992386494), (608, 8, 7970776174128919008),
                (616, 8, 7970776174128922186),
            ]),
            ("base_vault", 72, &[
                (64, 8, 129966130),
            ]),
            ("quote_vault", 165, &[
                (64, 8, 5610429910),
            ]),
        ],
        &[
            (21476949, true, 4000, 51229906),
            (9730, true, 4051, 0),
            (7901467, false, 4051, 0),
            (51998, true, 4011, 0),
            (777426, false, 4005, 327),
            (589, false, 4051, 0),
        ],
    ),
    (
        &[
            ("pool", 1733, &[
                (544, 8, 409525294287256614), (552, 8, 5091621654840767172), (576, 8, 13347473181887014922),
                (592, 8, 7970776175052332499), (48, 8, 10820020124591586428), (0, 8, 7625034826406274465),
                (176, 8, 4681572970462667602), (144, 8, 13764045186263742552), (728, 8, 5175317868634051584),
                (80, 8, 10818894471766759974), (200, 8, 4682417408174223290), (240, 8, 4679321204905936823),
                (224, 8, 4681010080536736725), (256, 8, 4679886116282470262), (336, 8, 4675943458074294602),
                (280, 8, 4678476698369214366), (304, 8, 4677069302525936019), (320, 8, 4677632260556421163),
                (736, 8, 5175036376477406212), (744, 8, 5174754914385531938), (752, 8, 5176725230633030721),
                (208, 8, 4680447121992386494), (608, 8, 7970776174128919008), (616, 8, 7970776174128922186),
            ]),
            ("base_vault", 72, &[
                (64, 8, 854425118),
            ]),
            ("quote_vault", 165, &[
                (64, 8, 119114181760),
            ]),
        ],
        &[
            (399, false, 4005, 3),
            (601566217712032, false, 4000, 4610966575945),
            (359474307, true, 4005, 38885131642),
            (45, false, 4051, 0),
            (48, false, 4005, 0),
            (2193, true, 4011, 0),
        ],
    ),
    (
        &[
            ("pool", 1733, &[
                (1720, 8, 4), (544, 8, 1996199738005224486), (552, 8, 5091621654840767448),
                (576, 8, 13382943429884108752), (592, 8, 7970776174128922083), (48, 8, 10831366604356105942),
                (0, 8, 7625034909857725512), (176, 8, 4681572970359359418), (144, 8, 13764045186263742543),
                (728, 8, 5175317877223986182), (80, 8, 10818894471766759975), (200, 8, 4682417408174196670),
                (240, 8, 4679325652518028544), (224, 8, 4681010080535611313), (256, 8, 4706239369636836826),
                (336, 8, 4675943453644338146), (280, 8, 4678476698369574323), (304, 8, 4677069302012775135),
                (320, 8, 4677632260721607189), (736, 8, 5175036385067341588), (744, 8, 5174754910090565397),
                (752, 8, 5176725230633030659), (208, 8, 4680447121992386495), (608, 8, 7970776174128919008),
                (616, 8, 7970776174128922186),
            ]),
            ("base_vault", 72, &[
                (64, 8, 717),
            ]),
            ("quote_vault", 165, &[
                (64, 8, 9433),
            ]),
        ],
        &[
            (1943567533189, false, 4000, -1),
            (3154494, false, 4011, 0),
            (214456405027, false, 4051, 0),
            (3, false, 4011, 0),
            (152345, true, 4011, 0),
            (118, false, 4011, 0),
        ],
    ),
    (
        &[
            ("pool", 1728, &[
                (1720, 8, 4), (544, 8, 11657546838621781030), (552, 8, 5091621654840767449),
                (576, 8, 13355403898140456002), (592, 8, 7970776174130347030), (48, 8, 10820020423212960778),
                (0, 8, 7625034826399724343), (176, 8, 4681572978185705918), (144, 8, 13764045186223474639),
                (728, 8, 5175318186461631705), (80, 8, 10818894471766759973), (200, 8, 4682417408174196662),
                (240, 8, 4679321205025945232), (224, 8, 4681010059136492183), (256, 8, 4679875641071317867),
                (336, 8, 4675941334185727200), (280, 8, 4678476698539834925), (304, 8, 4677065662148152830),
                (320, 8, 4677632486300440036), (736, 8, 5175036277693158567), (744, 8, 5174754858550957458),
                (752, 8, 5176725243517932547), (208, 8, 4680447121992386494), (608, 8, 7970776174128919000),
                (616, 8, 7970776174128922186),
            ]),
            ("base_vault", 72, &[
                (64, 8, 2813554),
            ]),
            ("quote_vault", 165, &[
                (64, 8, 74551539),
            ]),
        ],
        &[
            (3535, false, 4051, 0),
            (2153, false, 4000, 5050130207150353),
            (2336, false, 4051, 0),
            (405096251, false, 4005, 3794617385463711183),
            (54, false, 4005, 127728140692230),
            (6, false, 4000, 14192015632470),
        ],
    ),
    (
        &[
            ("pool", 1728, &[
                (1720, 8, 4), (544, 8, 5297338264867798054), (552, 8, 5091621654819399506),
                (576, 8, 13388927375816647150), (592, 8, 7970776174128921066), (48, 8, 10820020423224412704),
                (0, 8, 7625034826489651132), (176, 8, 4681573003235014552), (144, 8, 13764045186263803518),
                (728, 8, 5175317864339084488), (80, 8, 10818894471766759973), (200, 8, 4682417408183394217),
                (240, 8, 4679321204905935217), (224, 8, 4681010080535611321), (256, 8, 4679883911879781757),
                (336, 8, 4675943453644490670), (280, 8, 4678476698369526509), (304, 8, 4677069302049363800),
                (320, 8, 4677632260566380832), (736, 8, 5175036595520738304), (744, 8, 5174754892910695437),
                (752, 8, 5176725230633030816), (208, 8, 4680447121992386494), (608, 8, 7970776174128919008),
                (616, 8, 7970776174128922186),
            ]),
            ("base_vault", 72, &[
                (64, 8, 1),
            ]),
            ("quote_vault", 165, &[
                (64, 8, 226),
            ]),
        ],
        &[
            (190, false, 4000, 1),
            (351934, true, 4051, 0),
            (675987, false, 4005, 158),
            (1, false, 4011, 0),
            (98788, true, 4011, 0),
            (232363912, false, 4011, 0),
        ],
    ),
    (
        &[
            ("pool", 1728, &[
                (1720, 8, 3), (544, 8, 11536231123659488294), (552, 8, 5091621654840767449),
                (576, 8, 13355465770199188374), (592, 8, 7970776174128918579), (48, 8, 10820021166351858048),
                (0, 8, 7625034722364859793), (176, 8, 4681572970359358106), (144, 8, 13764045186225155110),
                (728, 8, 5175317868634051584), (80, 8, 10818894471766759975), (200, 8, 4682417409077265786),
                (240, 8, 4679321205225931673), (224, 8, 4681010080535610923), (256, 8, 4679884166692625546),
                (336, 8, 4675943453644490670), (280, 8, 4678476698369610815), (304, 8, 4677069302011736759),
                (320, 8, 4677637509751571235), (736, 8, 5175037630607856643), (744, 8, 5174754910090564657),
                (752, 8, 5176686064826258435), (208, 8, 4680447121992386495), (608, 8, 7970776174128919000),
                (616, 8, 7970776174128922186),
            ]),
            ("base_vault", 72, &[
                (64, 8, 532),
            ]),
            ("quote_vault", 165, &[
                (64, 8, 6378),
            ]),
        ],
        &[
            (31, false, 4051, 0),
            (78, false, 4051, 0),
            (5004, true, 4051, 0),
            (0, true, 4000, 0),
            (107524352790309595, true, 4005, -1),
            (4, true, 4000, 63),
        ],
    ),
    (
        &[
            ("pool", 1728, &[
                (1720, 8, 4), (544, 8, 10876453778249710630), (552, 8, 5091621654840767449),
                (576, 8, 13355403923003433050), (592, 8, 7970776174591320878), (48, 8, 10819949851093934293),
                (0, 8, 7625034843291880986), (176, 8, 4681572970402364242), (144, 8, 13763860439202845180),
                (728, 8, 5175318336785486920), (80, 8, 10818894471766759973), (200, 8, 4682417408174206759),
                (240, 8, 4679321204905638161), (224, 8, 5007504491855148217), (256, 8, 4679884163449161599),
                (336, 8, 4675943454008863301), (280, 8, 4678476698369525672), (304, 8, 4677069302011463594),
                (320, 8, 4677632260554688425), (736, 8, 5175036389362308108), (744, 8, 5174754892910695436),
                (752, 8, 5176725226338063363), (208, 8, 4680447121992386495), (608, 8, 7970776174128919000),
                (616, 8, 7970776174128922186),
            ]),
            ("base_vault", 72, &[
                (64, 8, 780042173),
            ]),
            ("quote_vault", 165, &[
                (64, 8, 69358103214),
            ]),
        ],
        &[
            (7326, false, 4011, 13518710),
            (977292, true, 4000, 214),
            (211766, false, 4000, 121127074),
            (12248, false, 4011, 21447512),
            (3, true, 4005, 0),
            (0, true, 4005, 0),
        ],
    ),
];

fn account(len: usize, fields: Fields) -> Vec<u8> {
    let mut data = vec![0u8; len];
    for (offset, width, value) in fields {
        let bytes = value.to_le_bytes();
        for i in 0..*width as usize {
            data[offset + i] = bytes[i];
        }
    }
    data
}

#[test]
fn humidifi_samples() {
    for (k, (updates, quotes)) in SAMPLES.iter().enumerate() {
        let mut pool = create_protocol("humidifi").unwrap();
        for (role, len, fields) in updates.iter() {
            let data = account(*len, fields);
            assert!(pool.can_apply(role, &data));
            pool.apply_update(role, &data, 1000);
        }
        assert!(pool.is_ready());
        assert_eq!(pool.try_quote_single(1_000_000, "B2Q", u64::MAX), Some(None), "sample {k}");
        for (amount, b2q, slot, expected) in quotes.iter() {
            let direction = if *b2q { "B2Q" } else { "Q2B" };
            let got = match pool.try_quote_single(*amount, direction, *slot) {
                None => -1,
                Some(None) => 0,
                Some(Some(out)) => out as i128,
            };
            assert_eq!(got, *expected, "sample {k}: {amount} {direction} at {slot}");

            let tier = TierInput { micro_usd: *amount as u128, usd_e21: 0, base_amount: Some(*amount) };
            if let Some(rows) = pool.try_compute_quotes(*slot, &[tier]) {
                if !*b2q && *expected > 0 {
                    let row = rows.iter().find(|r| r.direction == "Q2B").unwrap();
                    assert_eq!((row.input_amount, row.output_amount as i128), (*amount, *expected), "sample {k}");
                }
            }
        }
    }
}
