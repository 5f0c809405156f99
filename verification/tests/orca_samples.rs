//! Pools of sampled state and what they pay.
use amm_replay::protocols::create_protocol;
use amm_replay::protocols::quotes::TierInput;

type Fields = &'static [(usize, u8, u128)];
type Update = (&'static str, usize, Fields);
type Sample = (&'static [Update], &'static [(u64, u64, i128, i128)]);

/// Account updates by role, size and fields; then amounts of base and quote
/// tokens with what comes out: nothing at zero, out of range below it.
const SAMPLES: &[Sample] = &[
    (
        &[
            ("pool", 653, &[
                (0, 1, 63), (1, 1, 149), (2, 1, 209), (3, 1, 12), (4, 1, 225), (6, 1, 85), (7, 1, 169),
                (42, 2, 128), (46, 2, 2500), (50, 16, 1013641), (66, 16, 4607370216652185267),
            ]),
            ("tick_array_0", 9988, &[
                (8, 4, 4294922240), (3967, 1, 1), (3968, 16, 340282366920938463463374607431768028682),
                (5210, 1, 1), (5211, 16, 223496), (5549, 1, 1), (5550, 16, 7430), (9504, 1, 1),
                (9505, 16, 340282366920938463463374607431768202913),
            ]),
            ("tick_array_1", 9988, &[
                (8, 4, 4294933504), (2498, 1, 1), (2499, 16, 340282366920938463463374607431768115195),
                (4984, 1, 1), (4985, 16, 340282366920938463463374607431768005495), (9730, 1, 1),
                (9731, 16, 200351),
            ]),
            ("tick_array_2", 9988, &[
                (8, 4, 4294944768), (125, 1, 1), (126, 16, 216063), (351, 1, 1), (352, 16, 45838),
                (803, 1, 1), (804, 16, 340282366920938463463374607431767967151), (2385, 1, 1),
                (2386, 16, 179147), (6340, 1, 1), (6341, 16, 340282366920938463463374607431767967096),
                (6792, 1, 1), (6793, 16, 340282366920938463463374607431767972490),
            ]),
            ("tick_array_3", 9988, &[
                (8, 4, 4294956032), (5323, 1, 1), (5324, 16, 127095),
            ]),
        ],
        &[
            (331812760551793, 132948414, 316984, 4375814),
            (50005, 0, 0, 0),
            (3375707346, 2765874578, 316984, 4383779),
            (33, 7861968515, 0, 4384041),
        ],
    ),
    (
        &[
            ("pool", 653, &[
                (0, 1, 63), (1, 1, 149), (2, 1, 209), (3, 1, 12), (4, 1, 225), (6, 1, 85), (7, 1, 169),
                (42, 2, 1), (46, 2, 2500), (50, 16, 29614028018), (66, 16, 29326633106493708166),
            ]),
            ("oracle", 254, &[
                (48, 2, 30), (50, 2, 600), (52, 2, 5000), (54, 4, 50000), (58, 4, 350000), (62, 2, 1),
                (82, 8, 1699996000), (90, 8, 1700000000), (98, 4, 476), (102, 4, 9271), (106, 4, 87363),
            ]),
            ("tick_array_0", 9988, &[
                (8, 4, 9152), (2046, 1, 1), (2047, 16, 340282366920938463463374607431001474678),
                (3628, 1, 1), (3629, 16, 340282366920938463463374607425479064644), (4193, 1, 1),
                (4194, 16, 7169178145), (6905, 1, 1), (6906, 16, 2909791686), (7922, 1, 1),
                (7923, 16, 6688910606),
            ]),
            ("tick_array_3", 9988, &[
                (8, 4, 9416), (4080, 1, 1), (4081, 16, 340282366920938463463374607428640079704),
                (8374, 1, 1), (8375, 16, 340282366920938463463374607430129968731), (8487, 1, 1),
                (8488, 16, 340282366920938463463374607426873054931), (9617, 1, 1),
                (9618, 16, 340282366920938463463374607425742860732),
            ]),
            ("tick_array_2", 9988, &[
                (8, 4, 9328), (4532, 1, 1), (4533, 16, 340282366920938463463374607429394697725),
                (5549, 1, 1), (5550, 16, 340282366920938463463374607425277305526), (5775, 1, 1),
                (5776, 16, 340282366920938463463374607425418762177), (8261, 1, 1), (8262, 16, 4318420086),
                (9165, 1, 1), (9166, 16, 5977749046), (9391, 1, 1), (9392, 16, 3469851510),
            ]),
            ("tick_array_1", 9988, &[
                (8, 4, 9240), (690, 1, 1), (691, 16, 340282366920938463463374607428229107721), (5662, 1, 1),
                (5663, 16, 340282366920938463463374607427331016647),
            ]),
        ],
        &[
            (0, 19412053, 0, 7657996),
            (782234213, 159251169577415, 37296994041, 5157308685),
            (10423, 1990476424, 0, 702408216),
            (3602874202, 1615528, 37296994041, 637567),
        ],
    ),
    (
        &[
            ("pool", 653, &[
                (0, 1, 63), (1, 1, 149), (2, 1, 209), (3, 1, 12), (4, 1, 225), (6, 1, 85), (7, 1, 169),
                (42, 2, 1), (46, 2, 400), (50, 16, 58419153099816), (66, 16, 4302946864),
            ]),
            ("tick_array_2", 9988, &[
                (8, 4, 4294523776), (690, 1, 1), (691, 16, 340282366920938463463374600300151319597),
                (2950, 1, 1), (2951, 16, 2070371684845), (7018, 1, 1),
                (7019, 16, 340282366920938463463374606068086487449),
            ]),
            ("tick_array_3", 9988, &[
                (8, 4, 4294523864), (916, 1, 1), (917, 16, 13378730195245), (2046, 1, 1),
                (2047, 16, 340282366920938463463374603483163246544), (2724, 1, 1),
                (2725, 16, 340282366920938463463374605940424056537), (9391, 1, 1), (9392, 16, 3657355910593),
            ]),
            ("tick_array_0", 9988, &[
                (8, 4, 4294523600), (5549, 1, 1), (5550, 16, 3945145399465),
            ]),
            ("tick_array_1", 9988, &[
                (8, 4, 4294523688),
            ]),
        ],
        &[
            (12013, 565945310, -1, -1),
            (0, 0, 0, 0),
            (156057, 16, 0, 17118314747041469560),
            (49662, 0, 0, 0),
        ],
    ),
    (
        &[
            ("pool", 653, &[
                (0, 1, 63), (1, 1, 149), (2, 1, 209), (3, 1, 12), (4, 1, 225), (6, 1, 85), (7, 1, 169),
                (42, 2, 64), (46, 2, 10000), (50, 16, 1000002), (66, 16, 7754723422024636821),
            ]),
            ("oracle", 254, &[
                (48, 2, 30), (50, 2, 600), (52, 2, 500), (54, 4, 4000), (58, 4, 88000), (62, 2, 1),
                (82, 8, 1700000000), (90, 8, 1699999995), (98, 4, 10713), (102, 4, 4294949960),
                (106, 4, 5128),
            ]),
            ("tick_array_3", 9988, &[
                (8, 4, 4294956032), (1481, 1, 1), (1482, 16, 340282366920938463463374607431768199633),
                (6001, 1, 1), (6002, 16, 340282366920938463463374607431767991643), (8261, 1, 1),
                (8262, 16, 178403),
            ]),
            ("tick_array_1", 9988, &[
                (8, 4, 4294944768), (351, 1, 1), (352, 16, 340282366920938463463374607431768106005),
            ]),
            ("tick_array_0", 9988, &[
                (8, 4, 4294939136), (2385, 1, 1), (2386, 16, 199115), (2498, 1, 1),
                (2499, 16, 340282366920938463463374607431768132828), (6905, 1, 1), (6906, 16, 6799),
                (7131, 1, 1), (7132, 16, 104803), (7357, 1, 1),
                (7358, 16, 340282366920938463463374607431768021668),
            ]),
            ("tick_array_2", 9988, &[
                (8, 4, 4294950400), (3289, 1, 1), (3290, 16, 340282366920938463463374607431768041640),
                (4419, 1, 1), (4420, 16, 15452), (4758, 1, 1), (4759, 16, 26196),
            ]),
        ],
        &[
            (864, 1923, 0, 10660),
            (1375, 945980734522564, 0, 2005918),
            (873, 12, 0, 62),
            (1553837737574, 2105860487477, 447217, 2005918),
        ],
    ),
    (
        &[
            ("pool", 653, &[
                (0, 1, 63), (1, 1, 149), (2, 1, 209), (3, 1, 12), (4, 1, 225), (6, 1, 85), (7, 1, 169),
                (42, 2, 1), (46, 2, 10000), (50, 16, 8997313473), (66, 16, 2811662048127398959),
            ]),
            ("oracle", 254, &[
                (48, 2, 30), (50, 2, 600), (52, 2, 5000), (58, 4, 88000), (62, 2, 64), (82, 8, 1700000000),
                (90, 8, 1700000000), (98, 4, 106), (102, 4, 4294966708), (106, 4, 91),
            ]),
            ("tick_array_1", 9988, &[
                (8, 4, 4294929632), (577, 1, 1), (578, 16, 340282366920938463463374607430490424373),
                (690, 1, 1), (691, 16, 819040509), (3628, 1, 1),
                (3629, 16, 340282366920938463463374607430559890553), (3854, 1, 1),
                (3855, 16, 340282366920938463463374607430692542217), (6792, 1, 1),
                (6793, 16, 340282366920938463463374607430066522274), (7922, 1, 1), (7923, 16, 1442646696),
            ]),
            ("tick_array_2", 9988, &[
                (8, 4, 4294929720), (2498, 1, 1), (2499, 16, 340282366920938463463374607431197607200),
                (2950, 1, 1), (2951, 16, 340282366920938463463374607430823832706), (6792, 1, 1),
                (6793, 16, 505984331), (8487, 1, 1), (8488, 16, 340282366920938463463374607431216179239),
            ]),
            ("tick_array_0", 9988, &[
                (8, 4, 4294929544), (125, 1, 1), (126, 16, 469159915), (577, 1, 1),
                (578, 16, 340282366920938463463374607430475622969), (4419, 1, 1),
                (4420, 16, 340282366920938463463374607430517743656), (5888, 1, 1),
                (5889, 16, 340282366920938463463374607430591658177), (6566, 1, 1), (6567, 16, 947907707),
            ]),
        ],
        &[
            (6675, 391736, 0, 16688541),
            (294916, 6520748509865, 0, 47117770705),
            (9114284752, 122, 2138355551, 5165),
            (7641113, 10363600, 0, 438030034),
        ],
    ),
    (
        &[
            ("pool", 653, &[
                (0, 1, 63), (1, 1, 149), (2, 1, 209), (3, 1, 12), (4, 1, 225), (6, 1, 85), (7, 1, 169),
                (42, 2, 8), (46, 2, 100), (50, 16, 5893616988), (66, 16, 2042785413067377996),
            ]),
            ("tick_array_2", 9988, &[
                (8, 4, 4294923648), (3289, 1, 1), (3290, 16, 340282366920938463463374607431385232602),
                (3515, 1, 1), (3516, 16, 959109877), (4532, 1, 1),
                (4533, 16, 340282366920938463463374607430644987297), (5775, 1, 1), (5776, 16, 1342099364),
            ]),
            ("tick_array_0", 9988, &[
                (8, 4, 4294922240),
            ]),
            ("tick_array_1", 9988, &[
                (8, 4, 4294922944), (3289, 1, 1), (3290, 16, 340282366920938463463374607431421588434),
                (5097, 1, 1), (5098, 16, 340282366920938463463374607431714418242), (5888, 1, 1),
                (5889, 16, 1218258125), (7244, 1, 1), (7245, 16, 340282366920938463463374607431132720975),
                (7922, 1, 1), (7923, 16, 820843176), (8148, 1, 1),
                (8149, 16, 340282366920938463463374607431357991725),
            ]),
            ("tick_array_3", 9988, &[
                (8, 4, 4294924352), (3289, 1, 1), (3290, 16, 340282366920938463463374607431755090833),
            ]),
        ],
        &[
            (87659432, 4120049, 0, 333867267),
            (0, 9246400, 0, 744188062),
            (0, 26740064037, 0, 66362677681),
            (3212388, 224747, 0, 18318668),
        ],
    ),
    (
        &[
            ("pool", 653, &[
                (0, 1, 63), (1, 1, 149), (2, 1, 209), (3, 1, 12), (4, 1, 225), (6, 1, 85), (7, 1, 169),
                (42, 2, 4), (46, 2, 2500), (50, 16, 1001625), (66, 16, 144661933063463929327),
            ]),
            ("oracle", 254, &[
                (48, 2, 30), (50, 2, 600), (52, 2, 5000), (54, 4, 50000), (58, 4, 88000), (62, 2, 1),
                (82, 8, 1699996000), (90, 8, 1699999900), (98, 4, 7), (102, 4, 41194), (106, 4, 15952),
            ]),
            ("tick_array_0", 9988, &[
                (8, 4, 40832), (351, 1, 1), (352, 16, 62184), (3289, 1, 1),
                (3290, 16, 340282366920938463463374607431767972228), (8148, 1, 1),
                (8149, 16, 340282366920938463463374607431768146490),
            ]),
            ("tick_array_1", 9988, &[
                (8, 4, 41184), (1707, 1, 1), (1708, 16, 340282366920938463463374607431768063974),
                (4193, 1, 1), (4194, 16, 173985), (4306, 1, 1), (4307, 16, 32682), (8035, 1, 1),
                (8036, 16, 193660), (9391, 1, 1), (9392, 16, 340282366920938463463374607431768189490),
            ]),
        ],
        &[
            (1, 398157, 0, 6165),
            (2, 66014, 0, 1054),
            (57093, 47423, 9736556, 759),
            (3285, 246, 9736556, 3),
        ],
    ),
    (
        &[
            ("pool", 653, &[
                (0, 1, 63), (1, 1, 149), (2, 1, 209), (3, 1, 12), (4, 1, 225), (6, 1, 85), (7, 1, 169),
                (42, 2, 1), (46, 2, 400), (50, 16, 89874484805750225386494936945),
                (66, 16, 18447395193374571826),
            ]),
            ("oracle", 254, &[
                (48, 2, 30), (50, 2, 600), (52, 2, 5000), (54, 4, 4000), (58, 4, 350000), (62, 2, 8),
                (82, 8, 1699999900), (90, 8, 1700000000), (98, 4, 1608), (102, 4, 4294967295),
                (106, 4, 31806),
            ]),
            ("tick_array_1", 9988, &[
                (4306, 1, 1), (4307, 16, 340282366920938463463374607311425929106), (8713, 1, 1),
                (8714, 16, 340282366920938463457828496250838997615),
            ]),
            ("tick_array_0", 9988, &[
                (8, 4, 4294967208),
            ]),
        ],
        &[
            (2653987, 4813313, 0, 0),
            (48, 452281547348, 0, 448202072540),
            (1177, 5036650, 0, 0),
            (62848697567, 4182, 0, 0),
        ],
    ),
    (
        &[
            ("pool", 653, &[
                (0, 1, 63), (1, 1, 149), (2, 1, 209), (3, 1, 12), (4, 1, 225), (6, 1, 85), (7, 1, 169),
                (42, 2, 4), (46, 2, 2500), (50, 16, 1000011), (66, 16, 5558158119526312927),
            ]),
            ("tick_array_0", 9988, &[
                (8, 4, 4294942656), (1820, 1, 1), (1821, 16, 340282366920938463463374607431768053387),
                (3289, 1, 1), (3290, 16, 162129), (5210, 1, 1), (5211, 16, 4061), (6340, 1, 1),
                (6341, 16, 91851), (6453, 1, 1), (6454, 16, 209964), (7244, 1, 1),
                (7245, 16, 340282366920938463463374607431768007582),
            ]),
        ],
        &[
            (26, 1918, 0, 0),
            (5, 73612, 0, 0),
            (7363161999, 0, 269989, 0),
            (320, 2, 0, 0),
        ],
    ),
    (
        &[
            ("pool", 653, &[
                (0, 1, 63), (1, 1, 149), (2, 1, 209), (3, 1, 12), (4, 1, 225), (6, 1, 85), (7, 1, 169),
                (42, 2, 128), (46, 2, 100), (50, 16, 59154580499441), (66, 16, 46329610172836166009),
            ]),
            ("oracle", 254, &[
                (48, 2, 30), (50, 2, 600), (52, 2, 5000), (54, 4, 4000), (58, 4, 88000), (62, 2, 1),
                (82, 8, 1700000000), (90, 8, 1699999995), (98, 4, 834), (102, 4, 18415), (106, 4, 11156),
            ]),
            ("tick_array_0", 9988, &[
                (690, 1, 1), (691, 16, 7193628920592),
            ]),
        ],
        &[
            (0, 15, 0, 0),
            (30377192896, 0, 0, 0),
            (17, 4567, 0, 0),
            (493712887, 121, 0, 0),
        ],
    ),
    (
        &[
            ("pool", 653, &[
                (0, 1, 63), (1, 1, 149), (2, 1, 209), (3, 1, 12), (4, 1, 225), (6, 1, 85), (7, 1, 169),
                (42, 2, 128), (46, 2, 2500), (50, 16, 112029699333962), (66, 16, 14560315495126000468),
            ]),
            ("oracle", 254, &[
                (48, 2, 30), (50, 2, 600), (52, 2, 500), (54, 4, 4000), (58, 4, 350000), (62, 2, 1),
                (82, 8, 1699996000), (90, 8, 1699999995), (98, 4, 18311), (102, 4, 4294962566),
                (106, 4, 1704),
            ]),
            ("tick_array_0", 9988, &[
                (8, 4, 4294944768), (125, 1, 1), (126, 16, 11009461046571), (7809, 1, 1),
                (7810, 16, 18809420897830), (8148, 1, 1), (8149, 16, 17503180548790), (8261, 1, 1),
                (8262, 16, 340282366920938463463374585980682060703), (8939, 1, 1),
                (8940, 16, 340282366920938463463374583205469946812),
            ]),
        ],
        &[
            (128, 1046935739565, 0, 0),
            (5824, 54969612, 0, 0),
            (139397, 289450, 0, 0),
            (0, 87, 0, 0),
        ],
    ),
    (
        &[
            ("pool", 653, &[
                (0, 1, 63), (1, 1, 149), (2, 1, 209), (3, 1, 12), (4, 1, 225), (6, 1, 85), (7, 1, 169),
                (42, 2, 1), (46, 2, 400), (50, 16, 1000000), (66, 16, 3082540372532692095),
            ]),
            ("tick_array_0", 9988, &[
                (8, 4, 4294931392), (2385, 1, 1), (2386, 16, 118647), (4758, 1, 1),
                (4759, 16, 340282366920938463463374607431767990687),
            ]),
            ("tick_array_2", 9988, &[
                (8, 4, 4294931568), (12, 1, 1), (13, 16, 340282366920938463463374607431768133260),
                (125, 1, 1), (126, 16, 340282366920938463463374607431768154374), (2724, 1, 1),
                (2725, 16, 236787), (6340, 1, 1), (6341, 16, 13749), (8487, 1, 1), (8488, 16, 90254),
                (9278, 1, 1), (9279, 16, 340282366920938463463374607431768176934),
            ]),
            ("tick_array_1", 9988, &[
                (8, 4, 4294931480), (3402, 1, 1), (3403, 16, 117500),
            ]),
        ],
        &[
            (38, 402, 0, 14326),
            (5, 198660828, 0, 6994650),
            (1433745554, 742583075, 164488, 6999702),
            (130835, 1344052126461, 164488, 7001548),
        ],
    ),
];

fn account(len: usize, fields: Fields) -> Vec<u8> {
    let mut data = vec![0u8; len];
    for (offset, width, value) in fields {
        let bytes = value.to_le_bytes();
        for i in 0..*width as usize {
            data[offset + i] = bytes[i];
        }
    }
    data
}

#[test]
fn orca_clmm_samples() {
    for (k, (updates, quotes)) in SAMPLES.iter().enumerate() {
        let mut pool = create_protocol("orca_clmm").unwrap();
        for (role, len, fields) in updates.iter() {
            let data = account(*len, fields);
            assert!(pool.can_apply(role, &data));
            pool.apply_update(role, &data, 1700000000);
        }
        for (base, quote, b2q, q2b) in quotes.iter() {
            let tier = TierInput {
                micro_usd: *quote as u128,
                usd_e21: 0,
                base_amount: Some(*base),
            };
            let mut got = (0i128, 0i128);
            match pool.try_compute_quotes(1700000000, &[tier]) {
                None => got = (-1, -1),
                Some(rows) => {
                    for row in rows.iter() {
                        if row.direction == "B2Q" {
                            assert_eq!(row.input_amount, *base);
                            got.0 = row.output_amount as i128;
                        } else {
                            assert_eq!(row.input_amount, *quote);
                            got.1 = row.output_amount as i128;
                        }
                    }
                }
            }
            assert_eq!(got, (*b2q, *q2b), "sample {k}: {base} and {quote}");
        }
    }
}
