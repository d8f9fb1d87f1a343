//! Quarter-period sine table and the quadrant-folded lookup built on it.
use vstd::prelude::*;

verus! {

/// An angle in `[0, pi)` as a binary fraction of a half turn: `angle` stands for
/// `pi * angle / 2^32`, so the top bit is the quarter turn. The forward transform only
/// needs twiddle angles in this range.
pub type Angle = u32;

/// The angle of a quarter turn (pi / 2).
pub const QUARTER_TURN: u32 = 0x8000_0000;

/// Number of table intervals covering a quarter turn.
pub const TABLE_LEN: usize = 1024;

/// Bits of an angle below the quarter-turn bit that the table does not resolve.
pub const ANGLE_FINE_BITS: u32 = 21;

/// `QUARTER_SINE[k]` is `sin(pi * k / 2048)` scaled so that `1.0` is `u32::MAX`,
/// rounded to the nearest integer, for `k` in `0..=1024`.
pub const QUARTER_SINE: [u32; 1025] = [
    0, 6588395, 13176774, 19765122, 26353424, 32941664, 39529826, 46117895,
    52705856, 59293692, 65881389, 72468931, 79056303, 85643488, 92230472, 98817239,
    105403774, 111990060, 118576083, 125161827, 131747276, 138332416, 144917230, 151501702,
    158085819, 164669563, 171252920, 177835874, 184418409, 191000511, 197582163, 204163350,
    210744056, 217324267, 223903967, 230483139, 237061769, 243639842, 250217341, 256794251,
    263370557, 269946243, 276521294, 283095695, 289669429, 296242481, 302814837, 309386480,
    315957395, 322527566, 329096979, 335665617, 342233465, 348800508, 355366730, 361932116,
    368496651, 375060318, 381623102, 388184989, 394745962, 401306007, 407865107, 414423247,
    420980412, 427536587, 434091755, 440645902, 447199012, 453751070, 460302060, 466851967,
    473400776, 479948470, 486495035, 493040455, 499584716, 506127800, 512669694, 519210381,
    525749847, 532288075, 538825051, 545360759, 551895183, 558428309, 564960121, 571490604,
    578019742, 584547519, 591073921, 597598933, 604122538, 610644721, 617165468, 623684762,
    630202589, 636718933, 643233778, 649747110, 656258913, 662769172, 669277872, 675784996,
    682290530, 688794459, 695296767, 701797439, 708296459, 714793813, 721289484, 727783459,
    734275721, 740766255, 747255046, 753742079, 760227338, 766710808, 773192474, 779672320,
    786150332, 792626495, 799100791, 805573208, 812043729, 818512339, 824979023, 831443766,
    837906553, 844367367, 850826195, 857283021, 863737830, 870190606, 876641334, 883090000,
    889536587, 895981082, 902423468, 908863730, 915301854, 921737824, 928171626, 934603243,
    941032661, 947459864, 953884839, 960307568, 966728038, 973146233, 979562138, 985975738,
    992387018, 998795963, 1005202558, 1011606787, 1018008636, 1024408089, 1030805132, 1037199749,
    1043591926, 1049981647, 1056368897, 1062753662, 1069135926, 1075515673, 1081892891, 1088267562,
    1094639673, 1101009207, 1107376151, 1113740490, 1120102207, 1126461289, 1132817720, 1139171486,
    1145522571, 1151870960, 1158216639, 1164559592, 1170899806, 1177237264, 1183571951, 1189903854,
    1196232957, 1202559245, 1208882703, 1215203317, 1221521071, 1227835951, 1234147941, 1240457028,
    1246763195, 1253066429, 1259366714, 1265664036, 1271958379, 1278249730, 1284538073, 1290823393,
    1297105675, 1303384906, 1309661069, 1315934151, 1322204136, 1328471010, 1334734757, 1340995364,
    1347252816, 1353507097, 1359758194, 1366006091, 1372250773, 1378492226, 1384730436, 1390965387,
    1397197066, 1403425456, 1409650544, 1415872315, 1422090754, 1428305847, 1434517579, 1440725936,
    1446930902, 1453132464, 1459330606, 1465525314, 1471716574, 1477904371, 1484088690, 1490269517,
    1496446837, 1502620635, 1508790898, 1514957611, 1521120759, 1527280327, 1533436302, 1539588668,
    1545737412, 1551882518, 1558023972, 1564161761, 1570295868, 1576426281, 1582552984, 1588675963,
    1594795204, 1600910692, 1607022413, 1613130353, 1619234497, 1625334830, 1631431339, 1637524010,
    1643612826, 1649697776, 1655778843, 1661856014, 1667929275, 1673998611, 1680064007, 1686125451,
    1692182927, 1698236420, 1704285918, 1710331406, 1716372869, 1722410293, 1728443664, 1734472968,
    1740498190, 1746519317, 1752536334, 1758549228, 1764557983, 1770562586, 1776563023, 1782559279,
    1788551341, 1794539195, 1800522825, 1806502219, 1812477362, 1818448239, 1824414838, 1830377144,
    1836335143, 1842288821, 1848238164, 1854183157, 1860123788, 1866060041, 1871991904, 1877919361,
    1883842400, 1889761005, 1895675164, 1901584862, 1907490086, 1913390821, 1919287054, 1925178770,
    1931065956, 1936948599, 1942826683, 1948700196, 1954569123, 1960433451, 1966293166, 1972148254,
    1977998702, 1983844495, 1989685619, 1995522062, 2001353810, 2007180847, 2013003162, 2018820740,
    2024633568, 2030441631, 2036244916, 2042043411, 2047837099, 2053625970, 2059410007, 2065189199,
    2070963531, 2076732990, 2082497563, 2088257234, 2094011993, 2099761823, 2105506713, 2111246648,
    2116981615, 2122711601, 2128436592, 2134156575, 2139871535, 2145581460, 2151286337, 2156986151,
    2162680890, 2168370540, 2174055087, 2179734518, 2185408821, 2191077981, 2196741985, 2202400820,
    2208054473, 2213702929, 2219346177, 2224984202, 2230616992, 2236244533, 2241866812, 2247483815,
    2253095530, 2258701944, 2264303042, 2269898812, 2275489241, 2281074315, 2286654022, 2292228348,
    2297797280, 2303360806, 2308918911, 2314471583, 2320018809, 2325560576, 2331096870, 2336627680,
    2342152990, 2347672790, 2353187065, 2358695803, 2364198991, 2369696616, 2375188664, 2380675123,
    2386155981, 2391631223, 2397100838, 2402564813, 2408023133, 2413475788, 2418922763, 2424364046,
    2429799625, 2435229486, 2440653617, 2446072004, 2451484636, 2456891499, 2462292581, 2467687869,
    2473077350, 2478461012, 2483838842, 2489210827, 2494576955, 2499937212, 2505291587, 2510640067,
    2515982639, 2521319291, 2526650010, 2531974783, 2537293599, 2542606444, 2547913306, 2553214172,
    2558509030, 2563797869, 2569080674, 2574357434, 2579628136, 2584892768, 2590151317, 2595403772,
    2600650120, 2605890347, 2611124443, 2616352395, 2621574190, 2626789817, 2631999262, 2637202514,
    2642399560, 2647590389, 2652774987, 2657953344, 2663125446, 2668291281, 2673450837, 2678604103,
    2683751066, 2688891713, 2694026033, 2699154014, 2704275644, 2709390910, 2714499801, 2719602304,
    2724698408, 2729788100, 2734871369, 2739948202, 2745018588, 2750082515, 2755139970, 2760190943,
    2765235420, 2770273391, 2775304843, 2780329764, 2785348143, 2790359967, 2795365226, 2800363907,
    2805355998, 2810341489, 2815320366, 2820292618, 2825258234, 2830217202, 2835169510, 2840115147,
    2845054100, 2849986359, 2854911912, 2859830747, 2864742852, 2869648216, 2874546828, 2879438676,
    2884323748, 2889202033, 2894073519, 2898938195, 2903796050, 2908647072, 2913491250, 2918328572,
    2923159026, 2927982603, 2932799289, 2937609075, 2942411947, 2947207896, 2951996910, 2956778978,
    2961554088, 2966322229, 2971083391, 2975837561, 2980584728, 2985324882, 2990058011, 2994784105,
    2999503151, 3004215139, 3008920058, 3013617897, 3018308644, 3022992289, 3027668820, 3032338227,
    3037000499, 3041655625, 3046303593, 3050944393, 3055578013, 3060204444, 3064823674, 3069435691,
    3074040487, 3078638048, 3083228366, 3087811428, 3092387224, 3096955744, 3101516976, 3106070910,
    3110617535, 3115156840, 3119688816, 3124213450, 3128730733, 3133240653, 3137743201, 3142238365,
    3146726135, 3151206501, 3155679452, 3160144977, 3164603066, 3169053708, 3173496893, 3177932611,
    3182360851, 3186781602, 3191194854, 3195600598, 3199998821, 3204389515, 3208772669, 3213148272,
    3217516314, 3221876785, 3226229675, 3230574973, 3234912669, 3239242753, 3243565215, 3247880044,
    3252187231, 3256486765, 3260778637, 3265062835, 3269339351, 3273608173, 3277869292, 3282122698,
    3286368381, 3290606331, 3294836537, 3299058991, 3303273682, 3307480599, 3311679734, 3315871076,
    3320054616, 3324230343, 3328398248, 3332558321, 3336710552, 3340854931, 3344991449, 3349120096,
    3353240863, 3357353738, 3361458714, 3365555780, 3369644926, 3373726143, 3377799421, 3381864752,
    3385922124, 3389971529, 3394012957, 3398046398, 3402071844, 3406089284, 3410098709, 3414100110,
    3418093477, 3422078802, 3426056073, 3430025283, 3433986422, 3437939480, 3441884449, 3445821318,
    3449750079, 3453670722, 3457583239, 3461487619, 3465383855, 3469271935, 3473151853, 3477023598,
    3480887160, 3484742533, 3488589705, 3492428668, 3496259413, 3500081931, 3503896213, 3507702250,
    3511500033, 3515289554, 3519070802, 3522843770, 3526608448, 3530364827, 3534112900, 3537852656,
    3541584087, 3545307185, 3549021940, 3552728344, 3556426388, 3560116064, 3563797362, 3567470274,
    3571134792, 3574790906, 3578438609, 3582077891, 3585708744, 3589331160, 3592945129, 3596550644,
    3600147696, 3603736277, 3607316377, 3610887990, 3614451105, 3618005715, 3621551812, 3625089387,
    3628618432, 3632138938, 3635650898, 3639154302, 3642649143, 3646135413, 3649613103, 3653082205,
    3656542711, 3659994613, 3663437902, 3666872571, 3670298612, 3673716016, 3677124775, 3680524882,
    3683916328, 3687299105, 3690673206, 3694038623, 3697395347, 3700743370, 3704082686, 3707413285,
    3710735161, 3714048305, 3717352709, 3720648366, 3723935268, 3727213407, 3730482776, 3733743366,
    3736995171, 3740238182, 3743472392, 3746697793, 3749914378, 3753122139, 3756321068, 3759511159,
    3762692403, 3765864793, 3769028321, 3772182981, 3775328764, 3778465664, 3781593673, 3784712783,
    3787822987, 3790924278, 3794016649, 3797100092, 3800174600, 3803240166, 3806296783, 3809344443,
    3812383139, 3815412865, 3818433612, 3821445374, 3824448144, 3827441915, 3830426679, 3833402430,
    3836369161, 3839326864, 3842275533, 3845215161, 3848145740, 3851067265, 3853979727, 3856883121,
    3859777439, 3862662675, 3865538821, 3868405872, 3871263819, 3874112658, 3876952380, 3879782979,
    3882604449, 3885416783, 3888219974, 3891014015, 3893798901, 3896574624, 3899341178, 3902098556,
    3904846753, 3907585761, 3910315574, 3913036186, 3915747590, 3918449780, 3921142749, 3923826492,
    3926501002, 3929166272, 3931822296, 3934469068, 3937106582, 3939734832, 3942353811, 3944963514,
    3947563933, 3950155064, 3952736899, 3955309434, 3957872661, 3960426575, 3962971169, 3965506439,
    3968032377, 3970548978, 3973056235, 3975554144, 3978042698, 3980521892, 3982991718, 3985452173,
    3987903249, 3990344941, 3992777244, 3995200151, 3997613657, 4000017756, 4002412443, 4004797712,
    4007173557, 4009539973, 4011896954, 4014244495, 4016582590, 4018911233, 4021230420, 4023540144,
    4025840400, 4028131184, 4030412488, 4032684309, 4034946640, 4037199477, 4039442814, 4041676646,
    4043900967, 4046115772, 4048321057, 4050516815, 4052703043, 4054879733, 4057046883, 4059204485,
    4061352536, 4063491031, 4065619963, 4067739329, 4069849123, 4071949340, 4074039975, 4076121024,
    4078192481, 4080254342, 4082306602, 4084349256, 4086382298, 4088405725, 4090419532, 4092423714,
    4094418265, 4096403183, 4098378460, 4100344094, 4102300080, 4104246412, 4106183087, 4108110100,
    4110027445, 4111935120, 4113833118, 4115721437, 4117600070, 4119469015, 4121328266, 4123177819,
    4125017670, 4126847814, 4128668248, 4130478966, 4132279965, 4134071240, 4135852788, 4137624603,
    4139386682, 4141139021, 4142881615, 4144614461, 4146337554, 4148050890, 4149754466, 4151448276,
    4153132318, 4154806587, 4156471080, 4158125792, 4159770719, 4161405859, 4163031206, 4164646756,
    4166252508, 4167848455, 4169434595, 4171010924, 4172577439, 4174134135, 4175681008, 4177218056,
    4178745275, 4180262660, 4181770209, 4183267918, 4184755783, 4186233801, 4187701969, 4189160282,
    4190608738, 4192047333, 4193476064, 4194894927, 4196303919, 4197703037, 4199092277, 4200471636,
    4201841111, 4203200699, 4204550396, 4205890200, 4207220107, 4208540114, 4209850217, 4211150415,
    4212440703, 4213721079, 4214991539, 4216252082, 4217502703, 4218743400, 4219974169, 4221195009,
    4222405916, 4223606887, 4224797920, 4225979011, 4227150158, 4228311358, 4229462609, 4230603907,
    4231735251, 4232856636, 4233968061, 4235069524, 4236161020, 4237242549, 4238314107, 4239375692,
    4240427301, 4241468932, 4242500583, 4243522250, 4244533932, 4245535627, 4246527331, 4247509042,
    4248480759, 4249442479, 4250394199, 4251335918, 4252267633, 4253189342, 4254101043, 4255002734,
    4255894412, 4256776075, 4257647722, 4258509351, 4259360958, 4260202543, 4261034103, 4261855637,
    4262667142, 4263468617, 4264260059, 4265041467, 4265812839, 4266574173, 4267325468, 4268066721,
    4268797930, 4269519095, 4270230214, 4270931284, 4271622304, 4272303273, 4272974188, 4273635049,
    4274285854, 4274926600, 4275557288, 4276177914, 4276788479, 4277388979, 4277979415, 4278559784,
    4279130085, 4279690317, 4280240478, 4280780568, 4281310584, 4281830527, 4282340393, 4282840183,
    4283329895, 4283809528, 4284279081, 4284738552, 4285187941, 4285627246, 4286056467, 4286475603,
    4286884651, 4287283613, 4287672486, 4288051270, 4288419963, 4288778566, 4289127077, 4289465494,
    4289793819, 4290112049, 4290420184, 4290718223, 4291006166, 4291284011, 4291551759, 4291809409,
    4292056959, 4292294410, 4292521760, 4292739010, 4292946159, 4293143205, 4293330150, 4293506992,
    4293673731, 4293830367, 4293976899, 4294113326, 4294239649, 4294355868, 4294461981, 4294557989,
    4294643892, 4294719689, 4294785380, 4294840965, 4294886443, 4294921816, 4294947082, 4294962242,
    4294967295,
];

/// Table entry `k` as an integer.
pub open spec fn table(k: int) -> int {
    QUARTER_SINE@[k] as int
}

/// `(-sin, cos)` of the angle `pi * angle / 2^32`, in table units, folded by quadrant:
/// the pair `(cos, -sin)` is the forward twiddle factor `exp(-i * theta)`. In the first
/// quadrant the sine is read forwards and the cosine backwards; in the second the roles
/// swap and the cosine is negative.
pub open spec fn sin_cos_spec(angle: int) -> (int, int) {
    if angle < QUARTER_TURN as int {
        let idx = angle / 0x20_0000;
        (-table(idx), table(TABLE_LEN as int - idx))
    } else {
        let idx = (angle - QUARTER_TURN as int) / 0x20_0000;
        (-table(TABLE_LEN as int - idx), -table(idx))
    }
}

/// A quarter turn more multiplies the twiddle factor by `-i`: the lookup of `angle + pi/2`
/// is the lookup of `angle` rotated.
pub proof fn lemma_quarter_turn_fold(angle: int)
    requires
        0 <= angle < QUARTER_TURN as int,
    ensures
        sin_cos_spec(angle + QUARTER_TURN as int) == (-sin_cos_spec(angle).1, sin_cos_spec(angle).0),
{
    assert((angle + QUARTER_TURN as int - QUARTER_TURN as int) / 0x20_0000 == angle / 0x20_0000);
}

/// Both parts of a looked-up pair are table values of at most 32 bits.
pub proof fn lemma_sin_cos_bound(angle: int)
    requires
        0 <= angle < 0x1_0000_0000,
    ensures
        -0xffff_ffff <= sin_cos_spec(angle).0 <= 0xffff_ffff,
        -0xffff_ffff <= sin_cos_spec(angle).1 <= 0xffff_ffff,
{
    if angle < QUARTER_TURN as int {
        let idx = angle / 0x20_0000;
        assert(0 <= idx < 1024);
        assert(0 <= table(idx) <= 0xffff_ffff);
        assert(0 <= table(TABLE_LEN as int - idx) <= 0xffff_ffff);
    } else {
        let idx = (angle - QUARTER_TURN as int) / 0x20_0000;
        assert(0 <= idx < 1024);
        assert(0 <= table(idx) <= 0xffff_ffff);
        assert(0 <= table(TABLE_LEN as int - idx) <= 0xffff_ffff);
    }
}

/// Looks up `(-sin, cos)` of the angle `pi * angle / 2^32` in table units
/// (`1.0` is `u32::MAX`), the imaginary and real parts of the forward twiddle factor
/// `exp(-i * theta)`: angles resolve to the nearest lower table entry.
pub fn sin_cos(angle: Angle) -> (r: (i64, i64))
    ensures
        r.0 == sin_cos_spec(angle as int).0,
        r.1 == sin_cos_spec(angle as int).1,
{
    if angle < QUARTER_TURN {
        let idx = (angle >> ANGLE_FINE_BITS) as usize;
        proof {
            vstd::bits::lemma_u32_shr_is_div(angle, ANGLE_FINE_BITS);
            vstd::arithmetic::power2::lemma2_to64();
        }
        (-(QUARTER_SINE[idx] as i64), QUARTER_SINE[TABLE_LEN - idx] as i64)
    } else {
        let idx = ((angle - QUARTER_TURN) >> ANGLE_FINE_BITS) as usize;
        proof {
            vstd::bits::lemma_u32_shr_is_div((angle - QUARTER_TURN) as u32, ANGLE_FINE_BITS);
            vstd::arithmetic::power2::lemma2_to64();
        }
        (-(QUARTER_SINE[TABLE_LEN - idx] as i64), -(QUARTER_SINE[idx] as i64))
    }
}

} // verus!
