//! The computations behind the claim that 37 generates the residues modulo 2^61 - 1.
//!
//! Each lemma raises one residue to a small power by repeated squaring; the last one composes
//! them into powers of 37.

use vstd::prelude::*;
use vstd::arithmetic::div_mod::*;
use vstd::arithmetic::power::*;

use crate::field;

verus! {

/// Squaring doubles the exponent; `q` and `r` are the quotient and the remainder.
proof fn lemma_square(b: int, e: nat, e2: nat, h: int, q: int, r: int)
    requires
        field::pow_mod(b, e) == h,
        e2 == 2 * e,
        h * h == q * field::p() + r,
        0 <= r < field::p(),
    ensures
        field::pow_mod(b, e2) == r,
{
    reveal(field::pow_mod);
    field::lemma_pow_mod_is_pow(b, e);
    lemma_fundamental_div_mod_converse(h * h, field::p(), q, r);
}

/// Multiplying by the base adds one to the exponent.
proof fn lemma_times(b: int, e: nat, e1: nat, h: int, q: int, r: int)
    requires
        field::pow_mod(b, e) == h,
        e1 == e + 1,
        h * b == q * field::p() + r,
        0 <= r < field::p(),
    ensures
        field::pow_mod(b, e1) == r,
{
    field::lemma_pow_mod_is_pow(b, e);
    field::lemma_pow_mod_is_pow(b, e1);
    lemma_pow_adds(b, e, 1);
    lemma_pow1(b);
    field::lemma_congruent_mul(h, pow(b, e), b, b);
    lemma_fundamental_div_mod_converse(h * b, field::p(), q, r);
}

proof fn lemma_power_zero(b: int)
    ensures
        field::pow_mod(b, 0) == 1,
{
    reveal(field::pow_mod);
}

/// A power of a power of 37 is a power of 37.
proof fn lemma_power_compose(e: nat, v: int, c: nat, w: int, ec: nat)
    requires
        field::pow_mod(37, e) == v,
        field::pow_mod(v, c) == w,
        ec == e * c,
    ensures
        field::pow_mod(37, ec) == w,
{
    field::lemma_pow_mod_is_pow(37, e);
    field::lemma_pow_mod_is_pow(v, c);
    field::lemma_pow_mod_is_pow(37, e * c);
    lemma_pow_multiplies(37, e, c);
    field::lemma_congruent_pow(v, pow(37, e), c);
}

proof fn lemma_power_start()
    ensures
        field::pow_mod(37, 1) == 37,
{
    lemma_power_zero(37);
    lemma_times(37, 0, 1, 1, 0, 37);
}

proof fn lemma_power_1()
    ensures
        field::pow_mod(37, 922149450) == 2205346145106174874,
{
    lemma_power_zero(37);
    lemma_times(37, 0, 1, 1, 0, 37);
    lemma_square(37, 1, 2, 37, 0, 1369);
    lemma_times(37, 2, 3, 1369, 0, 50653);
    lemma_square(37, 3, 6, 50653, 0, 2565726409);
    lemma_square(37, 6, 12, 2565726409, 2, 1971265987412647379);
    lemma_times(37, 12, 13, 1971265987412647379, 31, 1455708248643440542);
    lemma_square(37, 13, 26, 1455708248643440542, 919007277035384075, 1591872098300023439);
    lemma_times(37, 26, 27, 1591872098300023439, 25, 1253192406758518468);
    lemma_square(37, 27, 54, 1253192406758518468, 681091991988107966, 1091349452027953358);
    lemma_square(37, 54, 108, 1091349452027953358, 516532834925247994, 997920042730791870);
    lemma_times(37, 108, 109, 997920042730791870, 16, 29553433620195974);
    lemma_square(37, 109, 218, 29553433620195974, 378779229658469, 682164854544587657);
    lemma_times(37, 218, 219, 682164854544587657, 10, 2181669526012803799);
    lemma_square(37, 219, 438, 2181669526012803799, 2064182991519449350, 1918937710322950551);
    lemma_times(37, 438, 439, 1918937710322950551, 30, 1825405005538351857);
    lemma_square(37, 439, 878, 1825405005538351857, 1445069512941705980, 1520858688388821469);
    lemma_times(37, 878, 879, 1520858688388821469, 24, 931539249257739529);
    lemma_square(37, 879, 1758, 931539249257739529, 376333241005677172, 2100748190493955269);
    lemma_square(37, 1758, 3516, 2100748190493955269, 1913895673829301640, 540792500750482721);
    lemma_times(37, 3516, 3517, 540792500750482721, 8, 1562578454058309069);
    lemma_square(37, 3517, 7034, 1562578454058309069, 1058897511812771947, 1883189666911254164);
    lemma_times(37, 7034, 7035, 1883189666911254164, 30, 502727399305585538);
    lemma_square(37, 7035, 14070, 502727399305585538, 109606264174394819, 632147292128709575);
    lemma_square(37, 14070, 28140, 632147292128709575, 173303298337699718, 163321707705674807);
    lemma_times(37, 28140, 28141, 163321707705674807, 2, 1431217166682579957);
    lemma_square(37, 28141, 56282, 1431217166682579957, 888344336549357011, 1332607216507981388);
    lemma_times(37, 56282, 56283, 1332607216507981388, 21, 883763817307738385);
    lemma_square(37, 56283, 112566, 883763817307738385, 338721448798322272, 2122379867127431553);
    lemma_times(37, 112566, 112567, 2122379867127431553, 34, 129392770449373127);
    lemma_square(37, 112567, 225134, 129392770449373127, 7260897197972491, 377414797478656188);
    lemma_square(37, 225134, 450268, 377414797478656188, 61774339704257924, 972667055008073620);
    lemma_square(37, 450268, 900536, 972667055008073620, 410297316910875981, 1786992351089013469);
    lemma_square(37, 900536, 1801072, 1786992351089013469, 1384891187340454845, 734583052698271366);
    lemma_times(37, 1801072, 1801073, 734583052698271366, 11, 1815299848485407081);
    lemma_square(37, 1801073, 3602146, 1815299848485407081, 1429114439597023230, 1815729598427458831);
    lemma_square(37, 3602146, 7204292, 1815729598427458831, 1429791170271298891, 1487090307280178220);
    lemma_square(37, 7204292, 14408584, 1487090307280178220, 959058172291082436, 1298516863146823764);
    lemma_times(37, 14408584, 14408585, 1298516863146823764, 20, 1928263752158600248);
    lemma_square(37, 14408585, 28817170, 1928263752158600248, 1612512683227594145, 1124276700596144609);
    lemma_square(37, 28817170, 57634340, 1124276700596144609, 548171794199633645, 600292593487181486);
    lemma_square(37, 57634340, 115268680, 600292593487181486, 156277420603082776, 1873737651117680220);
    lemma_times(37, 115268680, 115268681, 1873737651117680220, 30, 153002814943349610);
    lemma_square(37, 115268681, 230537362, 153002814943349610, 10152409026567592, 1045293945984116108);
    lemma_square(37, 230537362, 461074724, 1045293945984116108, 473856819022402018, 249235427288274546);
    lemma_times(37, 461074724, 461074725, 249235427288274546, 3, 2304181782025076349);
    lemma_square(37, 461074725, 922149450, 2304181782025076349, 2302521751655045777, 2205346145106174874);
}

proof fn lemma_power_2()
    ensures
        field::pow_mod(2205346145106174874, 20801) == 1923111353387675153,
{
    lemma_power_zero(2205346145106174874);
    lemma_times(2205346145106174874, 0, 1, 1, 0, 2205346145106174874);
    lemma_square(2205346145106174874, 1, 2, 2205346145106174874, 2109229292844687407, 1780589619507140819);
    lemma_square(2205346145106174874, 2, 4, 1780589619507140819, 1374984931943716101, 978201020050985710);
    lemma_times(2205346145106174874, 4, 5, 978201020050985710, 935567530004573822, 1652074005240699818);
    lemma_square(2205346145106174874, 5, 10, 1652074005240699818, 1183666237417772761, 1468412834466964413);
    lemma_square(2205346145106174874, 10, 20, 1468412834466964413, 935118411709474485, 2006841015175094334);
    lemma_square(2205346145106174874, 20, 40, 2006841015175094334, 1746611041643452575, 1925462956766029731);
    lemma_square(2205346145106174874, 40, 80, 1925462956766029731, 1607831748763515997, 2178461149725298214);
    lemma_times(2205346145106174874, 80, 81, 2178461149725298214, 2083516041470894989, 1073686399778363497);
    lemma_square(2205346145106174874, 81, 162, 1073686399778363497, 499948383503409557, 1980660516255579302);
    lemma_square(2205346145106174874, 162, 324, 1980660516255579302, 1701337022936175309, 551926740001951345);
    lemma_times(2205346145106174874, 324, 325, 551926740001951345, 527871803752758621, 1187498762938703959);
    lemma_square(2205346145106174874, 325, 650, 1187498762938703959, 611556513754951083, 1718552548904274748);
    lemma_square(2205346145106174874, 650, 1300, 1718552548904274748, 1280842993882967879, 1415400479200863575);
    lemma_square(2205346145106174874, 1300, 2600, 1415400479200863575, 868818262352210741, 1565092889932852934);
    lemma_square(2205346145106174874, 2600, 5200, 1565092889932852934, 1062308120861041884, 638816730303964672);
    lemma_square(2205346145106174874, 5200, 10400, 638816730303964672, 176979444517954560, 1797021601459201024);
    lemma_square(2205346145106174874, 10400, 20800, 1797021601459201024, 1400479834579977448, 873821590088631528);
    lemma_times(2205346145106174874, 20800, 20801, 873821590088631528, 835737327958704769, 1923111353387675153);
}

proof fn lemma_power_3()
    ensures
        field::pow_mod(1923111353387675153, 91) == 30210013857155493,
{
    lemma_power_zero(1923111353387675153);
    lemma_times(1923111353387675153, 0, 1, 1, 0, 1923111353387675153);
    lemma_square(1923111353387675153, 1, 2, 1923111353387675153, 1603906797969622920, 28862262498616489);
    lemma_square(1923111353387675153, 2, 4, 28862262498616489, 361269259533463, 419139921977504808);
    lemma_times(1923111353387675153, 4, 5, 419139921977504808, 349569653871549812, 1776944229180048412);
    lemma_square(1923111353387675153, 5, 10, 1776944229180048412, 1369360698451458330, 238919444414159914);
    lemma_times(1923111353387675153, 10, 11, 238919444414159914, 199262783399390242, 888446992222590700);
    lemma_square(1923111353387675153, 11, 22, 888446992222590700, 342320814919024807, 5785000651647543);
    lemma_square(1923111353387675153, 22, 44, 5785000651647543, 14513664809719, 1143373370781627080);
    lemma_times(1923111353387675153, 44, 45, 1143373370781627080, 953592374556799693, 134221610515186197);
    lemma_square(1923111353387675153, 45, 90, 134221610515186197, 7812951990792171, 1435482923938465188);
    lemma_times(1923111353387675153, 90, 91, 1435482923938465188, 1197216591758160321, 30210013857155493);
}

proof fn lemma_power_4()
    ensures
        field::pow_mod(1923111353387675153, 1321) == 223417494601207010,
{
    lemma_power_zero(1923111353387675153);
    lemma_times(1923111353387675153, 0, 1, 1, 0, 1923111353387675153);
    lemma_square(1923111353387675153, 1, 2, 1923111353387675153, 1603906797969622920, 28862262498616489);
    lemma_square(1923111353387675153, 2, 4, 28862262498616489, 361269259533463, 419139921977504808);
    lemma_times(1923111353387675153, 4, 5, 419139921977504808, 349569653871549812, 1776944229180048412);
    lemma_square(1923111353387675153, 5, 10, 1776944229180048412, 1369360698451458330, 238919444414159914);
    lemma_square(1923111353387675153, 10, 20, 238919444414159914, 24755588602988335, 625260903651425811);
    lemma_square(1923111353387675153, 20, 40, 625260903651425811, 169548055124669676, 1448238708602677845);
    lemma_times(1923111353387675153, 40, 41, 1448238708602677845, 1207855127951255660, 1948944537373572625);
    lemma_square(1923111353387675153, 41, 82, 1948944537373572625, 1647286825070350568, 1991047578318376457);
    lemma_square(1923111353387675153, 82, 164, 1991047578318376457, 1719228257642445055, 520675336268510544);
    lemma_times(1923111353387675153, 164, 165, 520675336268510544, 434251875173571790, 1751711829640070942);
    lemma_square(1923111353387675153, 165, 330, 1751711829640070942, 1330747289316690977, 45383068671587237);
    lemma_square(1923111353387675153, 330, 660, 45383068671587237, 893219058635022, 869426232383142247);
    lemma_square(1923111353387675153, 660, 1320, 869426232383142247, 327820224766174645, 510945873390136614);
    lemma_times(1923111353387675153, 1320, 1321, 510945873390136614, 426137341595613532, 223417494601207010);
}

proof fn lemma_power_5()
    ensures
        field::pow_mod(223417494601207010, 7) == 1032504562576723207,
{
    lemma_power_zero(223417494601207010);
    lemma_times(223417494601207010, 0, 1, 1, 0, 223417494601207010);
    lemma_square(223417494601207010, 1, 2, 223417494601207010, 21647344027511136, 371172417524801764);
    lemma_times(223417494601207010, 2, 3, 371172417524801764, 35963598240256064, 1349823543809296776);
    lemma_square(223417494601207010, 3, 6, 1349823543809296776, 790176777925228011, 1133939352397532715);
    lemma_times(223417494601207010, 6, 7, 1133939352397532715, 109869530635896593, 1032504562576723207);
}

proof fn lemma_power_6()
    ensures
        field::pow_mod(223417494601207010, 13) == 1165310750493918737,
{
    lemma_power_zero(223417494601207010);
    lemma_times(223417494601207010, 0, 1, 1, 0, 223417494601207010);
    lemma_square(223417494601207010, 1, 2, 223417494601207010, 21647344027511136, 371172417524801764);
    lemma_times(223417494601207010, 2, 3, 371172417524801764, 35963598240256064, 1349823543809296776);
    lemma_square(223417494601207010, 3, 6, 1349823543809296776, 790176777925228011, 1133939352397532715);
    lemma_square(223417494601207010, 6, 12, 1133939352397532715, 557634864896638193, 223277060415600682);
    lemma_times(223417494601207010, 12, 13, 223277060415600682, 21633737093396733, 1165310750493918737);
}

proof fn lemma_power_7()
    ensures
        field::pow_mod(2205346145106174874, 120211) == 632327983945438969,
{
    lemma_power_zero(2205346145106174874);
    lemma_times(2205346145106174874, 0, 1, 1, 0, 2205346145106174874);
    lemma_square(2205346145106174874, 1, 2, 2205346145106174874, 2109229292844687407, 1780589619507140819);
    lemma_times(2205346145106174874, 2, 3, 1780589619507140819, 1702985171889569023, 2067665026345501933);
    lemma_square(2205346145106174874, 3, 6, 2067665026345501933, 1854089217734830425, 947358092873477314);
    lemma_times(2205346145106174874, 6, 7, 947358092873477314, 906068847621203929, 1544401901791074957);
    lemma_square(2205346145106174874, 7, 14, 1544401901791074957, 1034405735657280771, 2124240252721235628);
    lemma_square(2205346145106174874, 14, 28, 2124240252721235628, 1956940100974147779, 880845744344169555);
    lemma_times(2205346145106174874, 28, 29, 880845744344169555, 842455344514118201, 578998987484058919);
    lemma_square(2205346145106174874, 29, 58, 578998987484058919, 145387099714947277, 1496388592684627134);
    lemma_square(2205346145106174874, 58, 116, 1496388592684627134, 971089016628348908, 1190624219851998448);
    lemma_times(2205346145106174874, 116, 117, 1190624219851998448, 1138732568968797199, 2118663133692552303);
    lemma_square(2205346145106174874, 117, 234, 2118663133692552303, 1946677833717148987, 863798823902926172);
    lemma_square(2205346145106174874, 234, 468, 863798823902926172, 323590290056442073, 2046352007500573161);
    lemma_times(2205346145106174874, 468, 469, 2046352007500573161, 1957164686944841793, 746838256480862571);
    lemma_square(2205346145106174874, 469, 938, 746838256480862571, 241893042637615050, 557532292937167491);
    lemma_times(2205346145106174874, 938, 939, 557532292937167491, 533233046694047633, 1431840819395853151);
    lemma_square(2205346145106174874, 939, 1878, 1431840819395853151, 889118697108224887, 1638047221457070264);
    lemma_square(2205346145106174874, 1878, 3756, 1638047221457070264, 1163651943780081869, 166286523542955277);
    lemma_square(2205346145106174874, 3756, 7512, 166286523542955277, 11991799876016296, 1611682278389521233);
    lemma_times(2205346145106174874, 7512, 7513, 1611682278389521233, 1541439415250698597, 1297627313131012895);
    lemma_square(2205346145106174874, 7513, 15026, 1297627313131012895, 730247738920356943, 1491697612176329232);
    lemma_square(2205346145106174874, 15026, 30052, 1491697612176329232, 965010088406389645, 231817464172172429);
    lemma_square(2205346145106174874, 30052, 60104, 231817464172172429, 23305722237153464, 862344398592263777);
    lemma_times(2205346145106174874, 60104, 60105, 862344398592263777, 824760353410992064, 2217797251911934234);
    lemma_square(2205346145106174874, 60105, 120210, 2217797251911934234, 2133113412723361186, 1531608119304780870);
    lemma_times(2205346145106174874, 120210, 120211, 1531608119304780870, 1464855173672010461, 632327983945438969);
}

proof fn lemma_power_8()
    ensures
        field::pow_mod(632327983945438969, 341) == 35184372088832,
{
    lemma_power_zero(632327983945438969);
    lemma_times(632327983945438969, 0, 1, 1, 0, 632327983945438969);
    lemma_square(632327983945438969, 1, 2, 632327983945438969, 173402385887862620, 1295966311890771341);
    lemma_square(632327983945438969, 2, 4, 1295966311890771341, 728379458117791459, 786569672679173772);
    lemma_times(632327983945438969, 4, 5, 786569672679173772, 215699860472050038, 2304821955081600930);
    lemma_square(632327983945438969, 5, 10, 2304821955081600930, 2303801353084166035, 1171794221217710615);
    lemma_square(632327983945438969, 10, 20, 1171794221217710615, 595487937119993563, 637547689311640812);
    lemma_times(632327983945438969, 20, 21, 637547689311640812, 174833778119602244, 2140824854926776784);
    lemma_square(632327983945438969, 21, 42, 2140824854926776784, 1987616260586244139, 2176799942047879467);
    lemma_square(632327983945438969, 42, 84, 2176799942047879467, 2054978577798101481, 1033040756586362658);
    lemma_times(632327983945438969, 84, 85, 1033040756586362658, 283289268322077884, 483092565277939918);
    lemma_square(632327983945438969, 85, 170, 483092565277939918, 101211758864019133, 772667220747482241);
    lemma_square(632327983945438969, 170, 340, 772667220747482241, 258913825283024778, 1846079480568664203);
    lemma_times(632327983945438969, 340, 341, 1846079480568664203, 506247698341394125, 35184372088832);
}

proof fn lemma_power_9()
    ensures
        field::pow_mod(632327983945438969, 61) == 160072957601057833,
{
    lemma_power_zero(632327983945438969);
    lemma_times(632327983945438969, 0, 1, 1, 0, 632327983945438969);
    lemma_square(632327983945438969, 1, 2, 632327983945438969, 173402385887862620, 1295966311890771341);
    lemma_times(632327983945438969, 2, 3, 1295966311890771341, 355390961997253869, 2290742648833141010);
    lemma_square(632327983945438969, 3, 6, 2290742648833141010, 2275741176747546332, 445347409303182368);
    lemma_times(632327983945438969, 6, 7, 445347409303182368, 122126974106548006, 1358532498047586886);
    lemma_square(632327983945438969, 7, 14, 1358532498047586886, 800405986390539542, 1926898465967466554);
    lemma_times(632327983945438969, 14, 15, 1926898465967466554, 528410571484768860, 160095814340576966);
    lemma_square(632327983945438969, 15, 30, 160095814340576966, 11115531138484878, 763869054036192178);
    lemma_square(632327983945438969, 30, 60, 763869054036192178, 253051022720372726, 572349347736803258);
    lemma_times(632327983945438969, 60, 61, 572349347736803258, 156954531475373119, 160072957601057833);
}

proof fn lemma_power_10()
    ensures
        field::pow_mod(160072957601057833, 11) == 484083891529811867,
{
    lemma_power_zero(160072957601057833);
    lemma_times(160072957601057833, 0, 1, 1, 0, 160072957601057833);
    lemma_square(160072957601057833, 1, 2, 160072957601057833, 11112357455717582, 1571194044972909407);
    lemma_square(160072957601057833, 2, 4, 1571194044972909407, 1070606592510457729, 1681623248300594370);
    lemma_times(160072957601057833, 4, 5, 1681623248300594370, 116739260153694061, 1388698974503875199);
    lemma_square(160072957601057833, 5, 10, 1388698974503875199, 836346982028815270, 2125970907271857831);
    lemma_times(160072957601057833, 10, 11, 2125970907271857831, 147586132074472156, 484083891529811867);
}

proof fn lemma_power_11()
    ensures
        field::pow_mod(160072957601057833, 31) == 2266698407988980144,
{
    lemma_power_zero(160072957601057833);
    lemma_times(160072957601057833, 0, 1, 1, 0, 160072957601057833);
    lemma_square(160072957601057833, 1, 2, 160072957601057833, 11112357455717582, 1571194044972909407);
    lemma_times(160072957601057833, 2, 3, 1571194044972909407, 109073200880986255, 1204212042269091526);
    lemma_square(160072957601057833, 3, 6, 1204212042269091526, 628892182577684680, 2058681509663637996);
    lemma_times(160072957601057833, 6, 7, 2058681509663637996, 142914863108067395, 417090368160395023);
    lemma_square(160072957601057833, 7, 14, 417090368160395023, 75445021416048935, 481282964673678344);
    lemma_times(160072957601057833, 14, 15, 481282964673678344, 33410942241290032, 714759515308672120);
    lemma_square(160072957601057833, 15, 30, 714759515308672120, 221559387470399115, 13495560234041035);
    lemma_times(160072957601057833, 30, 31, 13495560234041035, 936869610166061, 2266698407988980144);
}

proof fn lemma_power_12()
    ensures
        field::pow_mod(37, 2500509011) == 635757913735817905,
{
    lemma_power_zero(37);
    lemma_times(37, 0, 1, 1, 0, 37);
    lemma_square(37, 1, 2, 37, 0, 1369);
    lemma_square(37, 2, 4, 1369, 0, 1874161);
    lemma_square(37, 4, 8, 1874161, 0, 3512479453921);
    lemma_times(37, 8, 9, 3512479453921, 0, 129961739795077);
    lemma_square(37, 9, 18, 129961739795077, 7324893213, 2130417461614381366);
    lemma_square(37, 18, 36, 2130417461614381366, 1968338062312047959, 884313560627829947);
    lemma_times(37, 36, 37, 884313560627829947, 14, 437799614237992725);
    lemma_square(37, 37, 74, 437799614237992725, 83122962604594373, 1775667457834187902);
    lemma_square(37, 74, 148, 1775667457834187902, 1367393577191760904, 1934828875620069900);
    lemma_times(37, 148, 149, 1934828875620069900, 31, 107535112318073819);
    lemma_square(37, 149, 298, 107535112318073819, 5014998998220644, 1244967802947120317);
    lemma_square(37, 298, 596, 1244967802947120317, 672181420930091906, 662172774687919883);
    lemma_square(37, 596, 1192, 662172774687919883, 190157257795022442, 2291612777662085347);
    lemma_square(37, 1192, 2384, 2291612777662085347, 2277470366265276202, 49298441000456307);
    lemma_square(37, 2384, 4768, 49298441000456307, 1053990352059670, 1264440440346022079);
    lemma_times(37, 4768, 4769, 1264440440346022079, 20, 667436108528937903);
    lemma_square(37, 4769, 9538, 667436108528937903, 193192232597032005, 619104548208135654);
    lemma_square(37, 9538, 19076, 619104548208135654, 166225731795463413, 1861460616866092953);
    lemma_times(37, 19076, 19077, 1861460616866092953, 29, 2004595556848314682);
    lemma_square(37, 19077, 38154, 2004595556848314682, 1742704655294943098, 1180972840764960926);
    lemma_square(37, 38154, 76308, 1180972840764960926, 604853342162292998, 1809498642344522378);
    lemma_times(37, 76308, 76309, 1809498642344522378, 29, 82002499550203407);
    lemma_square(37, 76309, 152618, 82002499550203407, 2916247942991649, 1030286625839592450);
    lemma_square(37, 152618, 305236, 1030286625839592450, 460348136079700800, 550813867247141700);
    lemma_times(37, 305236, 305237, 550813867247141700, 8, 1933369014434691292);
    lemma_square(37, 305237, 610474, 1933369014434691292, 1621062548942055180, 1609013433866413084);
    lemma_times(37, 610474, 610475, 1609013433866413084, 25, 1887421822714935333);
    lemma_square(37, 610475, 1220950, 1887421822714935333, 1544927873504864025, 1316072146151808114);
    lemma_times(37, 1220950, 1220951, 1316072146151808114, 21, 271966214129327247);
    lemma_square(37, 1220951, 2441902, 271966214129327247, 32077475063257577, 407890573256782282);
    lemma_times(37, 2441902, 2441903, 407890573256782282, 6, 1256893155218780728);
    lemma_square(37, 2441903, 4883806, 1256893155218780728, 685120538268794130, 1731456199298902354);
    lemma_square(37, 4883806, 9767612, 1731456199298902354, 1300149471629864195, 1404016664803756871);
    lemma_times(37, 9767612, 9767613, 1404016664803756871, 22, 1220070395037737305);
    lemma_square(37, 9767613, 19535226, 1220070395037737305, 645565098274037356, 2221268526863429469);
    lemma_square(37, 19535226, 39070452, 2221268526863429469, 2139796095709293191, 1741551107535434320);
    lemma_times(37, 39070452, 39070453, 1741551107535434320, 27, 2179629730041333163);
    lemma_square(37, 39070453, 78140906, 2179629730041333163, 2060324896836797580, 481339513306145989);
    lemma_square(37, 78140906, 156281812, 481339513306145989, 100478534810921221, 2211021297915553950);
    lemma_times(37, 156281812, 156281813, 2211021297915553950, 35, 1103282700396207865);
    lemma_square(37, 156281813, 312563626, 1103282700396207865, 527890542473935418, 2244270336296601707);
    lemma_square(37, 312563626, 625127252, 2244270336296601707, 2184341831709706428, 543313572945896821);
    lemma_square(37, 625127252, 1250254504, 543313572945896821, 128018098963249779, 1821719159903519212);
    lemma_times(37, 1250254504, 1250254505, 1821719159903519212, 29, 534161649233086265);
    lemma_square(37, 1250254505, 2500509010, 534161649233086265, 123741584475306254, 1388224435579380671);
    lemma_times(37, 2500509010, 2500509011, 1388224435579380671, 22, 635757913735817905);
}

proof fn lemma_power_13()
    ensures
        field::pow_mod(635757913735817905, 55719) == 1595368271040701467,
{
    lemma_power_zero(635757913735817905);
    lemma_times(635757913735817905, 0, 1, 1, 0, 635757913735817905);
    lemma_square(635757913735817905, 1, 2, 635757913735817905, 175288657234106415, 1683448852542793360);
    lemma_times(635757913735817905, 2, 3, 1683448852542793360, 464153858739294590, 1707632763113085710);
    lemma_square(635757913735817905, 3, 6, 1707632763113085710, 1264617600593549673, 302760206068076077);
    lemma_square(635757913735817905, 6, 12, 302760206068076077, 39752811449918165, 467568539954190014);
    lemma_times(635757913735817905, 12, 13, 467568539954190014, 128916148368290610, 977713960506300560);
    lemma_square(635757913735817905, 13, 26, 977713960506300560, 414566206263492225, 1682343831438282625);
    lemma_times(635757913735817905, 26, 27, 1682343831438282625, 463849186691271096, 105189681209060329);
    lemma_square(635757913735817905, 27, 54, 105189681209060329, 4798622017479379, 1311154148602051812);
    lemma_square(635757913735817905, 54, 108, 1311154148602051812, 745551711251410470, 1100869448675416374);
    lemma_square(635757913735817905, 108, 216, 1100869448675416374, 525583718485754528, 223883007962847748);
    lemma_times(635757913735817905, 216, 217, 223883007962847748, 61728137386029935, 2239184907752904755);
    lemma_square(635757913735817905, 217, 434, 2239184907752904755, 2174453781577337625, 1884865225954403650);
    lemma_times(635757913735817905, 434, 435, 1884865225954403650, 519687584513655233, 2183017872075757667);
    lemma_square(635757913735817905, 435, 870, 2183017872075757667, 2066735250734721742, 2258308452175700247);
    lemma_square(635757913735817905, 870, 1740, 2258308452175700247, 2211753811855266942, 933874753800193167);
    lemma_times(635757913735817905, 1740, 1741, 933874753800193167, 257484253175164261, 687642900730169924);
    lemma_square(635757913735817905, 1741, 3482, 687642900730169924, 205067195396727336, 197817617014621240);
    lemma_square(635757913735817905, 3482, 6964, 197817617014621240, 16970717193226239, 1747146644210357311);
    lemma_square(635757913735817905, 6964, 13928, 1747146644210357311, 1323820131803526664, 1845350421727141257);
    lemma_times(635757913735817905, 13928, 13929, 1845350421727141257, 508792718992966418, 833936705292069067);
    lemma_square(635757913735817905, 13929, 27858, 833936705292069067, 301603546145383049, 1242940644749013890);
    lemma_times(635757913735817905, 27858, 27859, 1242940644749013890, 342698678117098485, 1241918840439936215);
    lemma_square(635757913735817905, 27859, 55718, 1241918840439936215, 668893068642010634, 1059941910305051291);
    lemma_times(635757913735817905, 55718, 55719, 1059941910305051291, 292242990907906288, 1595368271040701467);
}

proof fn lemma_power_14()
    ensures
        field::pow_mod(1595368271040701467, 50) == 185945230422323302,
{
    lemma_power_zero(1595368271040701467);
    lemma_times(1595368271040701467, 0, 1, 1, 0, 1595368271040701467);
    lemma_square(1595368271040701467, 1, 2, 1595368271040701467, 1103804513175129500, 1274873245624297589);
    lemma_times(1595368271040701467, 2, 3, 1274873245624297589, 882060191236198875, 550865074896357938);
    lemma_square(1595368271040701467, 3, 6, 550865074896357938, 131601470493886343, 1062797796035000651);
    lemma_square(1595368271040701467, 6, 12, 1062797796035000651, 489859522414769404, 143673666875748597);
    lemma_square(1595368271040701467, 12, 24, 143673666875748597, 8952093646896917, 748398155064019342);
    lemma_times(1595368271040701467, 24, 25, 748398155064019342, 517802238020396005, 1148296862242708959);
    lemma_square(1595368271040701467, 25, 50, 1148296862242708959, 571845385209505829, 185945230422323302);
}

proof fn lemma_power_15()
    ensures
        field::pow_mod(1595368271040701467, 331) == 2285941268627741223,
{
    lemma_power_zero(1595368271040701467);
    lemma_times(1595368271040701467, 0, 1, 1, 0, 1595368271040701467);
    lemma_square(1595368271040701467, 1, 2, 1595368271040701467, 1103804513175129500, 1274873245624297589);
    lemma_square(1595368271040701467, 2, 4, 1274873245624297589, 704862293709608659, 723216437625691212);
    lemma_times(1595368271040701467, 4, 5, 723216437625691212, 500379493778531664, 1293762754958643540);
    lemma_square(1595368271040701467, 5, 10, 1293762754958643540, 725904608175802182, 1646576047917730518);
    lemma_square(1595368271040701467, 10, 20, 1646576047917730518, 1175801071774141242, 459905996033521182);
    lemma_square(1595368271040701467, 20, 40, 459905996033521182, 91729369407378934, 1841564474682048890);
    lemma_times(1595368271040701467, 40, 41, 1841564474682048890, 1274142914432558992, 864377556347664238);
    lemma_square(1595368271040701467, 41, 82, 864377556347664238, 324024036732813620, 1617568424579708024);
    lemma_square(1595368271040701467, 82, 164, 1617568424579708024, 1134737966870316072, 2127964151045504104);
    lemma_times(1595368271040701467, 164, 165, 2127964151045504104, 1472297322465043393, 877880065750704825);
    lemma_square(1595368271040701467, 165, 330, 877880065750704825, 334226314091203459, 779100611779704116);
    lemma_times(1595368271040701467, 330, 331, 779100611779704116, 539044675207785899, 2285941268627741223);
}

proof fn lemma_power_16()
    ensures
        field::pow_mod(2285941268627741223, 2) == 777611702656095618,
{
    lemma_power_zero(2285941268627741223);
    lemma_times(2285941268627741223, 0, 1, 1, 0, 2285941268627741223);
    lemma_square(2285941268627741223, 1, 2, 2285941268627741223, 2266211300047414161, 777611702656095618);
}

proof fn lemma_power_17()
    ensures
        field::pow_mod(777611702656095618, 5) == 725554454131936870,
{
    lemma_power_zero(777611702656095618);
    lemma_times(777611702656095618, 0, 1, 1, 0, 777611702656095618);
    lemma_square(777611702656095618, 1, 2, 777611702656095618, 262238130562891830, 1554350452820481594);
    lemma_square(777611702656095618, 2, 4, 1554350452820481594, 1047775291088489249, 765166422852948037);
    lemma_times(777611702656095618, 4, 5, 765166422852948037, 258041142659080796, 725554454131936870);
}

proof fn lemma_power_18()
    ensures
        field::pow_mod(2285941268627741223, 25) == 2305843009213693950,
{
    lemma_power_zero(2285941268627741223);
    lemma_times(2285941268627741223, 0, 1, 1, 0, 2285941268627741223);
    lemma_square(2285941268627741223, 1, 2, 2285941268627741223, 2266211300047414161, 777611702656095618);
    lemma_times(2285941268627741223, 2, 3, 777611702656095618, 770900132821972361, 772387133213372503);
    lemma_square(2285941268627741223, 3, 6, 772387133213372503, 258726149685710813, 2246822354163092846);
    lemma_square(2285941268627741223, 6, 12, 2246822354163092846, 2189312399411116979, 855356772850685687);
    lemma_square(2285941268627741223, 12, 24, 855356772850685687, 317296193165826769, 1002938224617487650);
    lemma_times(2285941268627741223, 24, 25, 1002938224617487650, 994281860636802000, 2305843009213693950);
}

proof fn lemma_power_19()
    ensures
        field::pow_mod(635757913735817905, 16550) == 1625347353236859086,
{
    lemma_power_zero(635757913735817905);
    lemma_times(635757913735817905, 0, 1, 1, 0, 635757913735817905);
    lemma_square(635757913735817905, 1, 2, 635757913735817905, 175288657234106415, 1683448852542793360);
    lemma_square(635757913735817905, 2, 4, 1683448852542793360, 1229051599698480049, 590004020294606001);
    lemma_square(635757913735817905, 4, 8, 590004020294606001, 150966367863223966, 79875284932782335);
    lemma_square(635757913735817905, 8, 16, 79875284932782335, 2766910460772783, 2260249350975516592);
    lemma_square(635757913735817905, 16, 32, 2260249350975516592, 2215557220579101797, 672149077235164517);
    lemma_square(635757913735817905, 32, 64, 672149077235164517, 195930243395947537, 190813448485594602);
    lemma_square(635757913735817905, 64, 128, 190813448485594602, 15790221614168178, 1475952711956247126);
    lemma_times(635757913735817905, 128, 129, 1475952711956247126, 406943843607986416, 852439793526221414);
    lemma_square(635757913735817905, 129, 258, 852439793526221414, 315135765394028344, 1552857495916812252);
    lemma_square(635757913735817905, 258, 516, 1552857495916812252, 1045763476953846362, 1213054053674555242);
    lemma_times(635757913735817905, 516, 517, 1213054053674555242, 334458465442492907, 2219858300388902453);
    lemma_square(635757913735817905, 517, 1034, 2219858300388902453, 2137079954756289142, 517983971097037167);
    lemma_square(635757913735817905, 1034, 2068, 517983971097037167, 116359783923429651, 1178152703186644788);
    lemma_square(635757913735817905, 2068, 4136, 1178152703186644788, 601968037927842035, 739358472524534659);
    lemma_times(635757913735817905, 4136, 4137, 739358472524534659, 203852993511206142, 1103861539625822353);
    lemma_square(635757913735817905, 4137, 8274, 1103861539625822353, 528444605203460994, 1648362466832209315);
    lemma_times(635757913735817905, 8274, 8275, 1648362466832209315, 454479979255409972, 526095496643305703);
    lemma_square(635757913735817905, 8275, 16550, 526095496643305703, 120032660715591773, 1625347353236859086);
}

proof fn lemma_power_20()
    ensures
        field::pow_mod(1625347353236859086, 369) == 1433721343585656393,
{
    lemma_power_zero(1625347353236859086);
    lemma_times(1625347353236859086, 0, 1, 1, 0, 1625347353236859086);
    lemma_square(1625347353236859086, 1, 2, 1625347353236859086, 1145678178487492462, 2005927316333258034);
    lemma_square(1625347353236859086, 2, 4, 2005927316333258034, 1745020967313844660, 209055142829893496);
    lemma_times(1625347353236859086, 4, 5, 209055142829893496, 147359218178079858, 1888046486490365698);
    lemma_square(1625347353236859086, 5, 10, 1888046486490365698, 1545950665723858200, 1381197640053279004);
    lemma_times(1625347353236859086, 10, 11, 1381197640053279004, 973581427524472268, 1280154028051579476);
    lemma_square(1625347353236859086, 11, 22, 1280154028051579476, 710713751538324655, 1029375279896772671);
    lemma_times(1625347353236859086, 22, 23, 1029375279896772671, 725588160157618372, 90870011539970934);
    lemma_square(1625347353236859086, 23, 46, 90870011539970934, 3581058625535074, 882438272112694982);
    lemma_square(1625347353236859086, 46, 92, 882438272112694982, 337706123520863236, 183217947136494888);
    lemma_square(1625347353236859086, 92, 184, 183217947136494888, 14558153360301228, 1300598978488660716);
    lemma_square(1625347353236859086, 184, 368, 1300598978488660716, 733596214523979618, 1331422440547741938);
    lemma_times(1625347353236859086, 368, 369, 1331422440547741938, 938495782729968525, 1433721343585656393);
}

proof fn lemma_power_21()
    ensures
        field::pow_mod(1625347353236859086, 151) == 578781669329945206,
{
    lemma_power_zero(1625347353236859086);
    lemma_times(1625347353236859086, 0, 1, 1, 0, 1625347353236859086);
    lemma_square(1625347353236859086, 1, 2, 1625347353236859086, 1145678178487492462, 2005927316333258034);
    lemma_square(1625347353236859086, 2, 4, 2005927316333258034, 1745020967313844660, 209055142829893496);
    lemma_square(1625347353236859086, 4, 8, 209055142829893496, 18953611572424659, 714046399671564307);
    lemma_times(1625347353236859086, 8, 9, 714046399671564307, 503318491830130216, 2085725102244719986);
    lemma_square(1625347353236859086, 9, 18, 2085725102244719986, 1886619854322696601, 1433291140905879645);
    lemma_square(1625347353236859086, 18, 36, 1433291140905879645, 890920798333020317, 1757037352922323558);
    lemma_times(1625347353236859086, 36, 37, 1757037352922323558, 1238504095768618234, 1072578442710045454);
    lemma_square(1625347353236859086, 37, 74, 1072578442710045454, 498917103709765477, 821953047682536489);
    lemma_times(1625347353236859086, 74, 75, 821953047682536489, 579379951365965055, 783432213415306749);
    lemma_square(1625347353236859086, 75, 150, 783432213415306749, 266178586557852684, 771861583645034517);
    lemma_times(1625347353236859086, 150, 151, 771861583645034517, 544071377379015056, 578781669329945206);
}

proof fn lemma_power_22()
    ensures
        field::pow_mod(578781669329945206, 9) == 1562651311446036838,
{
    lemma_power_zero(578781669329945206);
    lemma_times(578781669329945206, 0, 1, 1, 0, 578781669329945206);
    lemma_square(578781669329945206, 1, 2, 578781669329945206, 145277982678704128, 2283158466290052708);
    lemma_square(578781669329945206, 2, 4, 2283158466290052708, 2260697090548911890, 389903678893155874);
    lemma_square(578781669329945206, 4, 8, 389903678893155874, 65930281552974668, 1680042974652870608);
    lemma_times(578781669329945206, 8, 9, 1680042974652870608, 421701769604523910, 1562651311446036838);
}

proof fn lemma_power_23()
    ensures
        field::pow_mod(578781669329945206, 41) == 1102844585000305877,
{
    lemma_power_zero(578781669329945206);
    lemma_times(578781669329945206, 0, 1, 1, 0, 578781669329945206);
    lemma_square(578781669329945206, 1, 2, 578781669329945206, 145277982678704128, 2283158466290052708);
    lemma_square(578781669329945206, 2, 4, 2283158466290052708, 2260697090548911890, 389903678893155874);
    lemma_times(578781669329945206, 4, 5, 389903678893155874, 97868372324541804, 2041815244475612440);
    lemma_square(578781669329945206, 5, 10, 2041815244475612440, 1808019659584136992, 1838579734337018208);
    lemma_square(578781669329945206, 10, 20, 1838579734337018208, 1466004158135426742, 1542439804954493622);
    lemma_square(578781669329945206, 20, 40, 1542439804954493622, 1031779068393450797, 52894354103649937);
    lemma_times(578781669329945206, 40, 41, 52894354103649937, 13276828666960895, 1102844585000305877);
}

proof fn lemma_power_24()
    ensures
        field::pow_mod(1102844585000305877, 3) == 1669582390241348315,
{
    lemma_power_zero(1102844585000305877);
    lemma_times(1102844585000305877, 0, 1, 1, 0, 1102844585000305877);
    lemma_square(1102844585000305877, 1, 2, 1102844585000305877, 527471373291476086, 594418010121383343);
    lemma_times(1102844585000305877, 2, 3, 594418010121383343, 284299790171999296, 1669582390241348315);
}

/// The exponent at which 37 gives 1, and those at which it does not: p - 1 divided by each of its
/// prime factors.
pub proof fn lemma_generator_certificate()
    ensures
        field::pow_mod(37, 2305843009213693950) == 1,
        field::pow_mod(37, 1152921504606846975) != 1,
        field::pow_mod(37, 768614336404564650) != 1,
        field::pow_mod(37, 461168601842738790) != 1,
        field::pow_mod(37, 329406144173384850) != 1,
        field::pow_mod(37, 209622091746699450) != 1,
        field::pow_mod(37, 177372539170284150) != 1,
        field::pow_mod(37, 74382032555280450) != 1,
        field::pow_mod(37, 56240073395455950) != 1,
        field::pow_mod(37, 37800705069076950) != 1,
        field::pow_mod(37, 15270483504726450) != 1,
        field::pow_mod(37, 6966293079195450) != 1,
        field::pow_mod(37, 1745528394559950) != 1,
{
    lemma_power_start();
    lemma_power_1();
    lemma_power_compose(1, 37, 922149450, 2205346145106174874, 922149450);
    lemma_power_2();
    lemma_power_compose(922149450, 2205346145106174874, 20801, 1923111353387675153, 19181630709450);
    lemma_power_3();
    lemma_power_compose(19181630709450, 1923111353387675153, 91, 30210013857155493, 1745528394559950);
    // 37^((p - 1) / 1321)
    assert(field::pow_mod(37, 1745528394559950) == 30210013857155493);
    lemma_power_4();
    lemma_power_compose(19181630709450, 1923111353387675153, 1321, 223417494601207010, 25338934167183450);
    lemma_power_5();
    lemma_power_compose(25338934167183450, 223417494601207010, 7, 1032504562576723207, 177372539170284150);
    // 37^((p - 1) / 13)
    assert(field::pow_mod(37, 177372539170284150) == 1032504562576723207);
    lemma_power_6();
    lemma_power_compose(25338934167183450, 223417494601207010, 13, 1165310750493918737, 329406144173384850);
    // 37^((p - 1) / 7)
    assert(field::pow_mod(37, 329406144173384850) == 1165310750493918737);
    lemma_power_7();
    lemma_power_compose(922149450, 2205346145106174874, 120211, 632327983945438969, 110852507533950);
    lemma_power_8();
    lemma_power_compose(110852507533950, 632327983945438969, 341, 35184372088832, 37800705069076950);
    // 37^((p - 1) / 61)
    assert(field::pow_mod(37, 37800705069076950) == 35184372088832);
    lemma_power_9();
    lemma_power_compose(110852507533950, 632327983945438969, 61, 160072957601057833, 6762002959570950);
    lemma_power_10();
    lemma_power_compose(6762002959570950, 160072957601057833, 11, 484083891529811867, 74382032555280450);
    // 37^((p - 1) / 31)
    assert(field::pow_mod(37, 74382032555280450) == 484083891529811867);
    lemma_power_11();
    lemma_power_compose(6762002959570950, 160072957601057833, 31, 2266698407988980144, 209622091746699450);
    // 37^((p - 1) / 11)
    assert(field::pow_mod(37, 209622091746699450) == 2266698407988980144);
    lemma_power_12();
    lemma_power_compose(1, 37, 2500509011, 635757913735817905, 2500509011);
    lemma_power_13();
    lemma_power_compose(2500509011, 635757913735817905, 55719, 1595368271040701467, 139325861583909);
    lemma_power_14();
    lemma_power_compose(139325861583909, 1595368271040701467, 50, 185945230422323302, 6966293079195450);
    // 37^((p - 1) / 331)
    assert(field::pow_mod(37, 6966293079195450) == 185945230422323302);
    lemma_power_15();
    lemma_power_compose(139325861583909, 1595368271040701467, 331, 2285941268627741223, 46116860184273879);
    lemma_power_16();
    lemma_power_compose(46116860184273879, 2285941268627741223, 2, 777611702656095618, 92233720368547758);
    lemma_power_17();
    lemma_power_compose(92233720368547758, 777611702656095618, 5, 725554454131936870, 461168601842738790);
    // 37^((p - 1) / 5)
    assert(field::pow_mod(37, 461168601842738790) == 725554454131936870);
    lemma_power_18();
    lemma_power_compose(46116860184273879, 2285941268627741223, 25, 2305843009213693950, 1152921504606846975);
    // 37^((p - 1) / 2)
    assert(field::pow_mod(37, 1152921504606846975) == 2305843009213693950);
    lemma_power_19();
    lemma_power_compose(2500509011, 635757913735817905, 16550, 1625347353236859086, 41383424132050);
    lemma_power_20();
    lemma_power_compose(41383424132050, 1625347353236859086, 369, 1433721343585656393, 15270483504726450);
    // 37^((p - 1) / 151)
    assert(field::pow_mod(37, 15270483504726450) == 1433721343585656393);
    lemma_power_21();
    lemma_power_compose(41383424132050, 1625347353236859086, 151, 578781669329945206, 6248897043939550);
    lemma_power_22();
    lemma_power_compose(6248897043939550, 578781669329945206, 9, 1562651311446036838, 56240073395455950);
    // 37^((p - 1) / 41)
    assert(field::pow_mod(37, 56240073395455950) == 1562651311446036838);
    lemma_power_23();
    lemma_power_compose(6248897043939550, 578781669329945206, 41, 1102844585000305877, 256204778801521550);
    lemma_power_24();
    lemma_power_compose(256204778801521550, 1102844585000305877, 3, 1669582390241348315, 768614336404564650);
    // 37^((p - 1) / 3)
    assert(field::pow_mod(37, 768614336404564650) == 1669582390241348315);
    lemma_square(37, 1152921504606846975, 2305843009213693950, 2305843009213693950, 2305843009213693949, 1);
}

} // verus!
