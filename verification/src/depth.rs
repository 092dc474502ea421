//! The depth budget of a tree: eight levels and thirteen tenths of the
//! binary logarithm of the number of primitives, rounded up.
use vstd::prelude::*;

verus! {

/// The thirteenth power.
pub open spec fn pow13(n: int) -> int {
    let n2 = n * n;
    let n4 = n2 * n2;
    let n8 = n4 * n4;
    n8 * n4 * n
}

/// The power of 1024 with exponent `k`, which is two to the `10 * k`.
pub open spec fn pow1024(k: nat) -> int
    decreases k,
{
    if k == 0 {
        1
    } else {
        1024 * pow1024((k - 1) as nat)
    }
}

/// `k` is `1.3 * log2(n)` rounded up: the least `k` with
/// `13 * log2(n) <= 10 * k`, which is to say with `n^13 <= 2^(10 * k)`.
pub open spec fn is_scaled_log(n: int, k: int) -> bool {
    &&& 0 <= k
    &&& pow13(n) <= pow1024(k as nat)
    &&& k > 0 ==> pow1024((k - 1) as nat) < pow13(n)
}

/// `1.3 * log2(n)` rounded up, for `n >= 1`.
pub open spec fn scaled_log(n: int) -> int {
    choose|k: int| is_scaled_log(n, k)
}

/// The depth budget for `n` primitives: `8 + ceil(1.3 * log2(n))`, and 8
/// where there is no primitive.
pub open spec fn depth_bound(n: int) -> int {
    if n <= 0 {
        8
    } else {
        8 + scaled_log(n)
    }
}

/// The largest `n` with `n^13 <= 2^(10 * k)`, for `k` below 84.
pub open spec fn threshold(k: int) -> int {
    if k <= 0 {
        1
    } else if k == 1 {
        1
    } else if k == 2 {
        2
    } else if k == 3 {
        4
    } else if k == 4 {
        8
    } else if k == 5 {
        14
    } else if k == 6 {
        24
    } else if k == 7 {
        41
    } else if k == 8 {
        71
    } else if k == 9 {
        121
    } else if k == 10 {
        206
    } else if k == 11 {
        352
    } else if k == 12 {
        600
    } else if k == 13 {
        1024
    } else if k == 14 {
        1745
    } else if k == 15 {
        2974
    } else if k == 16 {
        5069
    } else if k == 17 {
        8640
    } else if k == 18 {
        14726
    } else if k == 19 {
        25099
    } else if k == 20 {
        42779
    } else if k == 21 {
        72910
    } else if k == 22 {
        124266
    } else if k == 23 {
        211794
    } else if k == 24 {
        360974
    } else if k == 25 {
        615231
    } else if k == 26 {
        1048576
    } else if k == 27 {
        1787151
    } else if k == 28 {
        3045951
    } else if k == 29 {
        5191400
    } else if k == 30 {
        8848019
    } else if k == 31 {
        15080216
    } else if k == 32 {
        25702130
    } else if k == 33 {
        43805703
    } else if k == 34 {
        74660723
    } else if k == 35 {
        127248809
    } else if k == 36 {
        216877882
    } else if k == 37 {
        369638159
    } else if k == 38 {
        629996787
    } else if k == 39 {
        1073741824
    } else if k == 40 {
        1830043466
    } else if k == 41 {
        3119054333
    } else if k == 42 {
        5315993916
    } else if k == 43 {
        9060371606
    } else if k == 44 {
        15442142135
    } else if k == 45 {
        26318981613
    } else if k == 46 {
        44857040369
    } else if k == 47 {
        76452580889
    } else if k == 48 {
        130302781381
    } else if k == 49 {
        222082951786
    } else if k == 50 {
        378509475786
    } else if k == 51 {
        645116710255
    } else if k == 52 {
        1099511627776
    } else if k == 53 {
        1873964509671
    } else if k == 54 {
        3193911637490
    } else if k == 55 {
        5443577770789
    } else if k == 56 {
        9277820525401
    } else if k == 57 {
        15812753546660
    } else if k == 58 {
        26950637172040
    } else if k == 59 {
        45933609338544
    } else if k == 60 {
        78287442831032
    } else if k == 61 {
        133430048134257
    } else if k == 62 {
        227412942629070
    } else if k == 63 {
        387593703205260
    } else if k == 64 {
        660599511301355
    } else if k == 65 {
        1125899906842624
    } else if k == 66 {
        1918939657904085
    } else if k == 67 {
        3270565516790432
    } else if k == 68 {
        5574223637288193
    } else if k == 69 {
        9500488218011568
    } else if k == 70 {
        16192259631780200
    } else if k == 71 {
        27597452464169712
    } else if k == 72 {
        47036015962669775
    } else if k == 73 {
        80166341458977381
    } else if k == 74 {
        136632369289479637
    } else if k == 75 {
        232870853252168312
    } else if k == 76 {
        396895952082186416
    } else if k == 77 {
        676453899572588318
    } else if k == 78 {
        1152921504606846976
    } else if k == 79 {
        1964994209693783052
    } else if k == 80 {
        3349059089193403285
    } else if k == 81 {
        5708005004583110629
    } else if k == 82 {
        9728499935243845722
    } else if k == 83 {
        16580873862942925096
    } else {
        16580873862942925096
    }
}

proof fn lemma_mul_monotone(a: int, b: int, c: int, d: int)
    requires
        0 <= a <= b,
        0 <= c <= d,
    ensures
        0 <= a * c <= b * d,
{
    assert(0 <= a * c <= b * d) by (nonlinear_arith)
        requires
            0 <= a <= b,
            0 <= c <= d,
    ;
}

/// The thirteenth power keeps the order of the natural numbers.
pub proof fn lemma_pow13_monotone(a: int, b: int)
    requires
        0 <= a <= b,
    ensures
        0 <= pow13(a) <= pow13(b),
{
    lemma_mul_monotone(a, b, a, b);
    lemma_mul_monotone(a * a, b * b, a * a, b * b);
    let a4 = (a * a) * (a * a);
    let b4 = (b * b) * (b * b);
    lemma_mul_monotone(a4, b4, a4, b4);
    lemma_mul_monotone(a4 * a4, b4 * b4, a4, b4);
    lemma_mul_monotone(a4 * a4 * a4, b4 * b4 * b4, a, b);
}

/// The powers of 1024 grow with the exponent.
pub proof fn lemma_pow1024_monotone(j: nat, k: nat)
    requires
        j <= k,
    ensures
        0 < pow1024(j) <= pow1024(k),
    decreases k,
{
    if k == 0 {
    } else if j == k {
        lemma_pow1024_monotone((j - 1) as nat, (k - 1) as nat);
    } else {
        lemma_pow1024_monotone(j, (k - 1) as nat);
    }
}

/// At most one number is the rounded scaled logarithm of `n`.
pub proof fn lemma_scaled_log_unique(n: int, j: int, k: int)
    requires
        is_scaled_log(n, j),
        is_scaled_log(n, k),
    ensures
        j == k,
{
    if j < k {
        lemma_pow1024_monotone(j as nat, (k - 1) as nat);
    } else if k < j {
        lemma_pow1024_monotone(k as nat, (j - 1) as nat);
    }
}

/// A power of 1024 exceeds its exponent.
proof fn lemma_pow1024_grows(k: nat)
    ensures
        pow1024(k) > k,
    decreases k,
{
    if k > 0 {
        lemma_pow1024_grows((k - 1) as nat);
    }
}

/// Below an exponent whose power reaches `n^13` there is the least such.
proof fn lemma_least_exponent(n: int, k: nat)
    requires
        pow13(n) <= pow1024(k),
    ensures
        exists|j: int| is_scaled_log(n, j),
    decreases k,
{
    if k == 0 {
        assert(is_scaled_log(n, 0));
    } else if pow1024((k - 1) as nat) < pow13(n) {
        assert(is_scaled_log(n, k as int));
    } else {
        lemma_least_exponent(n, (k - 1) as nat);
    }
}

/// Every natural number has its rounded scaled logarithm.
pub proof fn lemma_scaled_log_exists(n: int)
    requires
        0 <= n,
    ensures
        is_scaled_log(n, scaled_log(n)),
{
    lemma_pow13_monotone(0, n);
    lemma_pow1024_grows(pow13(n) as nat);
    lemma_least_exponent(n, pow13(n) as nat);
}

/// Each threshold is the thirteenth root of its power of 1024, rounded down.
#[verifier::rlimit(50)]
proof fn lemma_thresholds()
    ensures
        forall|k: int| 0 <= k < 84 ==> pow13(#[trigger] threshold(k)) <= pow1024(k as nat) < pow13(threshold(k) + 1),
        pow13(0x1_0000_0000_0000_0000) <= pow1024(84),
{
    assert(pow1024(0) == 1);
    assert(pow13(1) <= 1 < pow13(2)) by (nonlinear_arith);
    assert(pow1024(1) == 1024);
    assert(pow13(1) <= 1024 < pow13(2)) by (nonlinear_arith);
    assert(pow1024(2) == 1048576);
    assert(pow13(2) <= 1048576 < pow13(3)) by (nonlinear_arith);
    assert(pow1024(3) == 1073741824);
    assert(pow13(4) <= 1073741824 < pow13(5)) by (nonlinear_arith);
    assert(pow1024(4) == 1099511627776);
    assert(pow13(8) <= 1099511627776 < pow13(9)) by (nonlinear_arith);
    assert(pow1024(5) == 1125899906842624);
    assert(pow13(14) <= 1125899906842624 < pow13(15)) by (nonlinear_arith);
    assert(pow1024(6) == 1152921504606846976);
    assert(pow13(24) <= 1152921504606846976 < pow13(25)) by (nonlinear_arith);
    assert(pow1024(7) == 1180591620717411303424);
    assert(pow13(41) <= 1180591620717411303424 < pow13(42)) by (nonlinear_arith);
    assert(pow1024(8) == 1208925819614629174706176);
    assert(pow13(71) <= 1208925819614629174706176 < pow13(72)) by (nonlinear_arith);
    assert(pow1024(9) == 1237940039285380274899124224);
    assert(pow13(121) <= 1237940039285380274899124224 < pow13(122)) by (nonlinear_arith);
    assert(pow1024(10) == 1267650600228229401496703205376);
    assert(pow13(206) <= 1267650600228229401496703205376 < pow13(207)) by (nonlinear_arith);
    assert(pow1024(11) == 1298074214633706907132624082305024);
    assert(pow13(352) <= 1298074214633706907132624082305024 < pow13(353)) by (nonlinear_arith);
    assert(pow1024(12) == 1329227995784915872903807060280344576);
    assert(pow13(600) <= 1329227995784915872903807060280344576 < pow13(601)) by (nonlinear_arith);
    assert(pow1024(13) == 1361129467683753853853498429727072845824);
    assert(pow13(1024) <= 1361129467683753853853498429727072845824 < pow13(1025)) by (nonlinear_arith);
    assert(pow1024(14) == 1393796574908163946345982392040522594123776);
    assert(pow13(1745) <= 1393796574908163946345982392040522594123776 < pow13(1746)) by (nonlinear_arith);
    assert(pow1024(15) == 1427247692705959881058285969449495136382746624);
    assert(pow13(2974) <= 1427247692705959881058285969449495136382746624 < pow13(2975)) by (nonlinear_arith);
    assert(pow1024(16) == 1461501637330902918203684832716283019655932542976);
    assert(pow13(5069) <= 1461501637330902918203684832716283019655932542976 < pow13(5070)) by (nonlinear_arith);
    assert(pow1024(17) == 1496577676626844588240573268701473812127674924007424);
    assert(pow13(8640) <= 1496577676626844588240573268701473812127674924007424 < pow13(8641)) by (nonlinear_arith);
    assert(pow1024(18) == 1532495540865888858358347027150309183618739122183602176);
    assert(pow13(14726) <= 1532495540865888858358347027150309183618739122183602176 < pow13(14727)) by (nonlinear_arith);
    assert(pow1024(19) == 1569275433846670190958947355801916604025588861116008628224);
    assert(pow13(25099) <= 1569275433846670190958947355801916604025588861116008628224 < pow13(25100)) by (nonlinear_arith);
    assert(pow1024(20) == 1606938044258990275541962092341162602522202993782792835301376);
    assert(pow13(42779) <= 1606938044258990275541962092341162602522202993782792835301376 < pow13(42780)) by (nonlinear_arith);
    assert(pow1024(21) == 1645504557321206042154969182557350504982735865633579863348609024);
    assert(pow13(72910) <= 1645504557321206042154969182557350504982735865633579863348609024 < pow13(72911)) by (nonlinear_arith);
    assert(pow1024(22) == 1684996666696914987166688442938726917102321526408785780068975640576);
    assert(pow13(124266) <= 1684996666696914987166688442938726917102321526408785780068975640576 < pow13(124267)) by (nonlinear_arith);
    assert(pow1024(23) == 1725436586697640946858688965569256363112777243042596638790631055949824);
    assert(pow13(211794) <= 1725436586697640946858688965569256363112777243042596638790631055949824 < pow13(211795)) by (nonlinear_arith);
    assert(pow1024(24) == 1766847064778384329583297500742918515827483896875618958121606201292619776);
    assert(pow13(360974) <= 1766847064778384329583297500742918515827483896875618958121606201292619776 < pow13(360975)) by (nonlinear_arith);
    assert(pow1024(25) == 1809251394333065553493296640760748560207343510400633813116524750123642650624);
    assert(pow13(615231) <= 1809251394333065553493296640760748560207343510400633813116524750123642650624 < pow13(615232)) by (nonlinear_arith);
    assert(pow1024(26) == 1852673427797059126777135760139006525652319754650249024631321344126610074238976);
    assert(pow13(1048576) <= 1852673427797059126777135760139006525652319754650249024631321344126610074238976 < pow13(1048577)) by (nonlinear_arith);
    assert(pow1024(27) == 1897137590064188545819787018382342682267975428761855001222473056385648716020711424);
    assert(pow13(1787151) <= 1897137590064188545819787018382342682267975428761855001222473056385648716020711424 < pow13(1787152)) by (nonlinear_arith);
    assert(pow1024(28) == 1942668892225729070919461906823518906642406839052139521251812409738904285205208498176);
    assert(pow13(3045951) <= 1942668892225729070919461906823518906642406839052139521251812409738904285205208498176 < pow13(3045952)) by (nonlinear_arith);
    assert(pow1024(29) == 1989292945639146568621528992587283360401824603189390869761855907572637988050133502132224);
    assert(pow13(5191400) <= 1989292945639146568621528992587283360401824603189390869761855907572637988050133502132224 < pow13(5191401)) by (nonlinear_arith);
    assert(pow1024(30) == 2037035976334486086268445688409378161051468393665936250636140449354381299763336706183397376);
    assert(pow13(8848019) <= 2037035976334486086268445688409378161051468393665936250636140449354381299763336706183397376 < pow13(8848020)) by (nonlinear_arith);
    assert(pow1024(31) == 2085924839766513752338888384931203236916703635113918720651407820138886450957656787131798913024);
    assert(pow13(15080216) <= 2085924839766513752338888384931203236916703635113918720651407820138886450957656787131798913024 < pow13(15080217)) by (nonlinear_arith);
    assert(pow1024(32) == 2135987035920910082395021706169552114602704522356652769947041607822219725780640550022962086936576);
    assert(pow13(25702130) <= 2135987035920910082395021706169552114602704522356652769947041607822219725780640550022962086936576 < pow13(25702131)) by (nonlinear_arith);
    assert(pow1024(33) == 2187250724783011924372502227117621365353169430893212436425770606409952999199375923223513177023053824);
    assert(pow13(43805703) <= 2187250724783011924372502227117621365353169430893212436425770606409952999199375923223513177023053824 < pow13(43805704)) by (nonlinear_arith);
    assert(pow1024(34) == 2239744742177804210557442280568444278121645497234649534899989100963791871180160945380877493271607115776);
    assert(pow13(74660723) <= 2239744742177804210557442280568444278121645497234649534899989100963791871180160945380877493271607115776 < pow13(74660724)) by (nonlinear_arith);
    assert(pow1024(35) == 2293498615990071511610820895302086940796564989168281123737588839386922876088484808070018553110125686554624);
    assert(pow13(127248809) <= 2293498615990071511610820895302086940796564989168281123737588839386922876088484808070018553110125686554624 < pow13(127248810)) by (nonlinear_arith);
    assert(pow1024(36) == 2348542582773833227889480596789337027375682548908319870707290971532209025114608443463698998384768703031934976);
    assert(pow13(216877882) <= 2348542582773833227889480596789337027375682548908319870707290971532209025114608443463698998384768703031934976 < pow13(216877883)) by (nonlinear_arith);
    assert(pow1024(37) == 2404907604760405225358828131112281116032698930082119547604265954848982041717359046106827774346003151904701415424);
    assert(pow13(369638159) <= 2404907604760405225358828131112281116032698930082119547604265954848982041717359046106827774346003151904701415424 < pow13(369638160)) by (nonlinear_arith);
    assert(pow1024(38) == 2462625387274654950767440006258975862817483704404090416746768337765357610718575663213391640930307227550414249394176);
    assert(pow13(629996787) <= 2462625387274654950767440006258975862817483704404090416746768337765357610718575663213391640930307227550414249394176 < pow13(629996788)) by (nonlinear_arith);
    assert(pow1024(39) == 2521728396569246669585858566409191283525103313309788586748690777871726193375821479130513040312634601011624191379636224);
    assert(pow13(1073741824) <= 2521728396569246669585858566409191283525103313309788586748690777871726193375821479130513040312634601011624191379636224 < pow13(1073741825)) by (nonlinear_arith);
    assert(pow1024(40) == 2582249878086908589655919172003011874329705792829223512830659356540647622016841194629645353280137831435903171972747493376);
    assert(pow13(1830043466) <= 2582249878086908589655919172003011874329705792829223512830659356540647622016841194629645353280137831435903171972747493376 < pow13(1830043467)) by (nonlinear_arith);
    assert(pow1024(41) == 2644223875160994395807661232131084159313618731857124877138595181097623164945245383300756841758861139390364848100093433217024);
    assert(pow13(3119054333) <= 2644223875160994395807661232131084159313618731857124877138595181097623164945245383300756841758861139390364848100093433217024 < pow13(3119054334)) by (nonlinear_arith);
    assert(pow1024(42) == 2707685248164858261307045101702230179137145581421695874189921465443966120903931272499975005961073806735733604454495675614232576);
    assert(pow13(5315993916) <= 2707685248164858261307045101702230179137145581421695874189921465443966120903931272499975005961073806735733604454495675614232576 < pow13(5315993917)) by (nonlinear_arith);
    assert(pow1024(43) == 2772669694120814859578414184143083703436437075375816575170479580614621307805625623039974406104139578097391210961403571828974157824);
    assert(pow13(9060371606) <= 2772669694120814859578414184143083703436437075375816575170479580614621307805625623039974406104139578097391210961403571828974157824 < pow13(9060371607)) by (nonlinear_arith);
    assert(pow1024(44) == 2839213766779714416208296124562517712318911565184836172974571090549372219192960637992933791850638927971728600024477257552869537611776);
    assert(pow13(15442142135) <= 2839213766779714416208296124562517712318911565184836172974571090549372219192960637992933791850638927971728600024477257552869537611776 < pow13(15442142136)) by (nonlinear_arith);
    assert(pow1024(45) == 2907354897182427562197295231552018137414565442749272241125960796722557152453591693304764202855054262243050086425064711734138406514458624);
    assert(pow13(26318981613) <= 2907354897182427562197295231552018137414565442749272241125960796722557152453591693304764202855054262243050086425064711734138406514458624 < pow13(26318981614)) by (nonlinear_arith);
    assert(pow1024(46) == 2977131414714805823690030317109266572712515013375254774912983855843898524112477893944078543723575564536883288499266264815757728270805630976);
    assert(pow13(44857040369) <= 2977131414714805823690030317109266572712515013375254774912983855843898524112477893944078543723575564536883288499266264815757728270805630976 < pow13(44857040370)) by (nonlinear_arith);
    assert(pow1024(47) == 3048582568667961163458591044719888970457615373696260889510895468384152088691177363398736428772941378085768487423248655171335913749304966119424);
    assert(pow13(76452580889) <= 3048582568667961163458591044719888970457615373696260889510895468384152088691177363398736428772941378085768487423248655171335913749304966119424 < pow13(76452580890)) by (nonlinear_arith);
    assert(pow1024(48) == 3121748550315992231381597229793166305748598142664971150859156959625371738819765620120306103063491971159826931121406622895447975679288285306290176);
    assert(pow13(130302781381) <= 3121748550315992231381597229793166305748598142664971150859156959625371738819765620120306103063491971159826931121406622895447975679288285306290176 < pow13(130302781382)) by (nonlinear_arith);
    assert(pow1024(49) == 3196670515523576044934755563308202297086564498088930458479776726656380660551439995003193449537015778467662777468320381844938727095591204153641140224);
    assert(pow13(222082951786) <= 3196670515523576044934755563308202297086564498088930458479776726656380660551439995003193449537015778467662777468320381844938727095591204153641140224 < pow13(222082951787)) by (nonlinear_arith);
    assert(pow1024(50) == 3273390607896141870013189696827599152216642046043064789483291368096133796404674554883270092325904157150886684127560071009217256545885393053328527589376);
    assert(pow13(378509475786) <= 3273390607896141870013189696827599152216642046043064789483291368096133796404674554883270092325904157150886684127560071009217256545885393053328527589376 < pow13(378509475787)) by (nonlinear_arith);
    assert(pow1024(51) == 3351951982485649274893506249551461531869841455148098344430890360930441007518386744200468574541725856922507964546621512713438470702986642486608412251521024);
    assert(pow13(645116710255) <= 3351951982485649274893506249551461531869841455148098344430890360930441007518386744200468574541725856922507964546621512713438470702986642486608412251521024 < pow13(645116710256)) by (nonlinear_arith);
    assert(pow1024(52) == 3432398830065304857490950399540696608634717650071652704697231729592771591698828026061279820330727277488648155695740429018560993999858321906287014145557528576);
    assert(pow13(1099511627776) <= 3432398830065304857490950399540696608634717650071652704697231729592771591698828026061279820330727277488648155695740429018560993999858321906287014145557528576 < pow13(1099511627777)) by (nonlinear_arith);
    assert(pow1024(53) == 3514776401986872174070733209129673327241950873673372369609965291102998109899599898686750536018664732148375711432438199315006457855854921632037902485050909261824);
    assert(pow13(1873964509671) <= 3514776401986872174070733209129673327241950873673372369609965291102998109899599898686750536018664732148375711432438199315006457855854921632037902485050909261824 < pow13(1873964509672)) by (nonlinear_arith);
    assert(pow1024(54) == 3599131035634557106248430806148785487095757694641533306480604458089470064537190296255232548883112685719936728506816716098566612844395439751206812144692131084107776);
    assert(pow13(3193911637490) <= 3599131035634557106248430806148785487095757694641533306480604458089470064537190296255232548883112685719936728506816716098566612844395439751206812144692131084107776 < pow13(3193911637491)) by (nonlinear_arith);
    assert(pow1024(55) == 3685510180489786476798393145496356338786055879312930105836138965083617346086082863365358130056307390177215209990980317284932211552660930305235775636164742230126362624);
    assert(pow13(5443577770789) <= 3685510180489786476798393145496356338786055879312930105836138965083617346086082863365358130056307390177215209990980317284932211552660930305235775636164742230126362624 < pow13(5443577770790)) by (nonlinear_arith);
    assert(pow1024(56) == 3773962424821541352241554580988268890916921220416440428376206300245624162392148852086126725177658767541468375030763844899770584629924792632561434251432696043649395326976);
    assert(pow13(9277820525401) <= 3773962424821541352241554580988268890916921220416440428376206300245624162392148852086126725177658767541468375030763844899770584629924792632561434251432696043649395326976 < pow13(9277820525402)) by (nonlinear_arith);
    assert(pow1024(57) == 3864537523017258344695351890931987344298927329706434998657235251451519142289560424536193766581922577962463616031502177177365078661042987655742908673467080748696980814823424);
    assert(pow13(15812753546660) <= 3864537523017258344695351890931987344298927329706434998657235251451519142289560424536193766581922577962463616031502177177365078661042987655742908673467080748696980814823424 < pow13(15812753546661)) by (nonlinear_arith);
    assert(pow1024(58) == 3957286423569672544968040336314355040562101585619389438625008897486355601704509874725062416979888719833562742816258229429621840548908019359480738481630290686665708354379186176);
    assert(pow13(26950637172040) <= 3957286423569672544968040336314355040562101585619389438625008897486355601704509874725062416979888719833562742816258229429621840548908019359480738481630290686665708354379186176 < pow13(26950637172041)) by (nonlinear_arith);
    assert(pow1024(59) == 4052261297735344686047273304385899561535592023674254785152009111026028136145418111718463914987406049109568248643848426935932764722081811824108276205189417663145685354884286644224);
    assert(pow13(45933609338544) <= 4052261297735344686047273304385899561535592023674254785152009111026028136145418111718463914987406049109568248643848426935932764722081811824108276205189417663145685354884286644224 < pow13(45933609338545)) by (nonlinear_arith);
    assert(pow1024(60) == 4149515568880992958512407863691161151012446232242436899995657329690652811412908146399707048947103794288197886611300789182395151075411775307886874834113963687061181803401509523685376);
    assert(pow13(78287442831032) <= 4149515568880992958512407863691161151012446232242436899995657329690652811412908146399707048947103794288197886611300789182395151075411775307886874834113963687061181803401509523685376 < pow13(78287442831033)) by (nonlinear_arith);
    assert(pow1024(61) == 4249103942534136789516705652419749018636744941816255385595553105603228478886817941913300018121834285351114635889972008122772634701221657915276159830132698815550650166683145752253825024);
    assert(pow13(133430048134257) <= 4249103942534136789516705652419749018636744941816255385595553105603228478886817941913300018121834285351114635889972008122772634701221657915276159830132698815550650166683145752253825024 < pow13(133430048134258)) by (nonlinear_arith);
    assert(pow1024(62) == 4351082437154956072465106588077822995084026820419845514849846380137705962380101572519219218556758308199541387151331336317719177934050977705242787666055883587123865770683541250307916824576);
    assert(pow13(227412942629070) <= 4351082437154956072465106588077822995084026820419845514849846380137705962380101572519219218556758308199541387151331336317719177934050977705242787666055883587123865770683541250307916824576 < pow13(227412942629071)) by (nonlinear_arith);
    assert(pow1024(63) == 4455508415646675018204269146191690746966043464109921807206242693261010905477224010259680479802120507596330380442963288389344438204468201170168614570041224793214838549179946240315306828365824);
    assert(pow13(387593703205260) <= 4455508415646675018204269146191690746966043464109921807206242693261010905477224010259680479802120507596330380442963288389344438204468201170168614570041224793214838549179946240315306828365824 < pow13(387593703205261)) by (nonlinear_arith);
    assert(pow1024(64) == 4562440617622195218641171605700291324893228507248559930579192517899275167208677386505912811317371399778642309573594407310688704721375437998252661319722214188251994674360264950082874192246603776);
    assert(pow13(660599511301355) <= 4562440617622195218641171605700291324893228507248559930579192517899275167208677386505912811317371399778642309573594407310688704721375437998252661319722214188251994674360264950082874192246603776 < pow13(660599511301356)) by (nonlinear_arith);
    assert(pow1024(65) == 4671939192445127903888559724237098316690665991422525368913093138328857771221685643782054718788988313373329725003360673086145233634688448510210725191395547328770042546544911308884863172860522266624);
    assert(pow13(1125899906842624) <= 4671939192445127903888559724237098316690665991422525368913093138328857771221685643782054718788988313373329725003360673086145233634688448510210725191395547328770042546544911308884863172860522266624 < pow13(1125899906842625)) by (nonlinear_arith);
    assert(pow1024(66) == 4784065733063810973581885157618788676291241975216665977767007373648750357731006099232824032039924032894289638403441329240212719241920971274455782595989040464660523567661989180298099889009174801022976);
    assert(pow13(1918939657904085) <= 4784065733063810973581885157618788676291241975216665977767007373648750357731006099232824032039924032894289638403441329240212719241920971274455782595989040464660523567661989180298099889009174801022976 < pow13(1918939657904086)) by (nonlinear_arith);
    assert(pow1024(67) == 4898883310657342436947850401401639604522231782621865961233415550616320366316550245614411808808882209683752589725123921141977824503727074585042721378292777435812376133285876920625254286345394996247527424);
    assert(pow13(3270565516790432) <= 4898883310657342436947850401401639604522231782621865961233415550616320366316550245614411808808882209683752589725123921141977824503727074585042721378292777435812376133285876920625254286345394996247527424 < pow13(3270565516790433)) by (nonlinear_arith);
    assert(pow1024(68) == 5016456510113118655434598811035278955030765345404790744303017523831112055108147451509157692220295382716162651878526895249385292291816524375083746691371804094271873160484737966720260389217684476157468082176);
    assert(pow13(5574223637288193) <= 5016456510113118655434598811035278955030765345404790744303017523831112055108147451509157692220295382716162651878526895249385292291816524375083746691371804094271873160484737966720260389217684476157468082176 < pow13(5574223637288194)) by (nonlinear_arith);
    assert(pow1024(69) == 5136851466355833503165029182500125649951503713694505722166289944403058744430742990345377476833582471901350555523611540735370539306820120960085756611964727392534398116336371677921546638558908903585247316148224);
    assert(pow13(9500488218011568) <= 5136851466355833503165029182500125649951503713694505722166289944403058744430742990345377476833582471901350555523611540735370539306820120960085756611964727392534398116336371677921546638558908903585247316148224 < pow13(9500488218011569)) by (nonlinear_arith);
    assert(pow1024(70) == 5260135901548373507240989882880128665550339802823173859498280903068732154297080822113666536277588451226982968856178217713019432250183803863127814770651880849955223671128444598191663757884322717271293251735781376);
    assert(pow13(16192259631780200) <= 5260135901548373507240989882880128665550339802823173859498280903068732154297080822113666536277588451226982968856178217713019432250183803863127814770651880849955223671128444598191663757884322717271293251735781376 < pow13(16192259631780201)) by (nonlinear_arith);
    assert(pow1024(71) == 5386379163185534471414773640069251753523547958090930032126239644742381726000210761844394533148250574056430560108726494938131898624188215155842882325147525990354149039235527268548263688073546462485804289777440129024);
    assert(pow13(27597452464169712) <= 5386379163185534471414773640069251753523547958090930032126239644742381726000210761844394533148250574056430560108726494938131898624188215155842882325147525990354149039235527268548263688073546462485804289777440129024 < pow13(27597452464169713)) by (nonlinear_arith);
    assert(pow1024(72) == 5515652263101987298728728207430913795608113109085112352897269396216198887424215820128660001943808587833784893551335930816647064191168732319583111500951066614122648616177179922993422016587311577585463592732098692120576);
    assert(pow13(47036015962669775) <= 5515652263101987298728728207430913795608113109085112352897269396216198887424215820128660001943808587833784893551335930816647064191168732319583111500951066614122648616177179922993422016587311577585463592732098692120576 < pow13(47036015962669776)) by (nonlinear_arith);
    assert(pow1024(73) == 5648027917416434993898217684409255726702707823703155049366803861725387660722396999811747841990459993941795730996567993156246593731756781895253106176973892212861592182965432241145264144985407055447514718957669060731469824);
    assert(pow13(80166341458977381) <= 5648027917416434993898217684409255726702707823703155049366803861725387660722396999811747841990459993941795730996567993156246593731756781895253106176973892212861592182965432241145264144985407055447514718957669060731469824 < pow13(80166341458977382)) by (nonlinear_arith);
    assert(pow1024(74) == 5783580587434429433751774908835077864143572811472030770551607154406796964579734527807229790198231033796398828540485624991996511981318944660739180725221265625970270395356602614932750484465056824778255072212653118189025099776);
    assert(pow13(136632369289479637) <= 5783580587434429433751774908835077864143572811472030770551607154406796964579734527807229790198231033796398828540485624991996511981318944660739180725221265625970270395356602614932750484465056824778255072212653118189025099776 < pow13(136632369289479638)) by (nonlinear_arith);
    assert(pow1024(75) == 5922386521532855740161817506647119732883018558947359509044845726112560091729648156474603305162988578607512400425457279991804428268870599332596921062626576000993556884845161077691136496092218188572933193945756793025561702170624);
    assert(pow13(232870853252168312) <= 5922386521532855740161817506647119732883018558947359509044845726112560091729648156474603305162988578607512400425457279991804428268870599332596921062626576000993556884845161077691136496092218188572933193945756793025561702170624 < pow13(232870853252168313)) by (nonlinear_arith);
    assert(pow1024(76) == 6064523798049644277925701126806650606472211004362096137261922023539261533931159712229993784486900304494092698035668254711607734547323493716579247168129613825017402250081444943555723771998431425098683590600454956058175183022718976);
    assert(pow13(396895952082186416) <= 6064523798049644277925701126806650606472211004362096137261922023539261533931159712229993784486900304494092698035668254711607734547323493716579247168129613825017402250081444943555723771998431425098683590600454956058175183022718976 < pow13(396895952082186417)) by (nonlinear_arith);
    assert(pow1024(77) == 6210072369202835740595917953850010221027544068466786444556208152104203810745507545323513635314585911801950922788524292824686320176459257565777149100164724556817819904083399622201061142526393779301051996774865875003571387415264231424);
    assert(pow13(676453899572588318) <= 6210072369202835740595917953850010221027544068466786444556208152104203810745507545323513635314585911801950922788524292824686320176459257565777149100164724556817819904083399622201061142526393779301051996774865875003571387415264231424 < pow13(676453899572588319)) by (nonlinear_arith);
    assert(pow1024(78) == 6359114106063703798370219984742410466332205126109989319225557147754704702203399726411277962562135973685197744935448875852478791860694279747355800678568677946181447581781401213133886609947027230004277244697462656003657100713230572978176);
    assert(pow13(1152921504606846976) <= 6359114106063703798370219984742410466332205126109989319225557147754704702203399726411277962562135973685197744935448875852478791860694279747355800678568677946181447581781401213133886609947027230004277244697462656003657100713230572978176 < pow13(1152921504606846977)) by (nonlinear_arith);
    assert(pow1024(79) == 6511732844609232689531105264376228317524178049136629062886970519300817615056281319845148633663627237053642490813899648872938282865350942461292339894854326216889802323744154842249099888585755883524379898570201759747744871130348106729652224);
    assert(pow13(1964994209693783052) <= 6511732844609232689531105264376228317524178049136629062886970519300817615056281319845148633663627237053642490813899648872938282865350942461292339894854326216889802323744154842249099888585755883524379898570201759747744871130348106729652224 < pow13(1964994209693783053)) by (nonlinear_arith);
    assert(pow1024(80) == 6668014432879854274079851790721257797144758322315908160396257811764037237817632071521432200871554290742929910593433240445888801654119365080363356052330830046095157579514014558463078285911814024728965016135886601981690748037476461291163877376);
    assert(pow13(3349059089193403285) <= 6668014432879854274079851790721257797144758322315908160396257811764037237817632071521432200871554290742929910593433240445888801654119365080363356052330830046095157579514014558463078285911814024728965016135886601981690748037476461291163877376 < pow13(3349059089193403286)) by (nonlinear_arith);
    assert(pow1024(81) == 6828046779268970776657768233698567984276232522051489956245767999246374131525255241237946573692471593720760228447675638216590132893818229842292076597586769967201441361422350907866192164773697561322460176523147880429251325990375896362151810433024);
    assert(pow13(5708005004583110629) <= 6828046779268970776657768233698567984276232522051489956245767999246374131525255241237946573692471593720760228447675638216590132893818229842292076597586769967201441361422350907866192164773697561322460176523147880429251325990375896362151810433024 < pow13(5708005004583110630)) by (nonlinear_arith);
    assert(pow1024(82) == 6991919901971426075297554671307333615898862102580725715195666431228287110681861367027657291461090911970058473930419853533788296083269867358507086435928852446414275954096487329654980776728266302794199220759703429559553357814144917874843453883416576);
    assert(pow13(9728499935243845722) <= 6991919901971426075297554671307333615898862102580725715195666431228287110681861367027657291461090911970058473930419853533788296083269867358507086435928852446414275954096487329654980776728266302794199220759703429559553357814144917874843453883416576 < pow13(9728499935243845723)) by (nonlinear_arith);
    assert(pow1024(83) == 7159725979618740301104695983418709622680434793042663132360362425577766001338226039836321066456157093857339877304749930018599215189268344175111256510391144905128218576994803025566700315369744694061260002057936311868982638401684395903839696776618573824);
    assert(pow13(16580873862942925096) <= 7159725979618740301104695983418709622680434793042663132360362425577766001338226039836321066456157093857339877304749930018599215189268344175111256510391144905128218576994803025566700315369744694061260002057936311868982638401684395903839696776618573824 < pow13(16580873862942925097)) by (nonlinear_arith);
    assert(pow1024(84) == 7331559403129590068331208687020758653624765228075687047537011123791632385370343464792392772051104864109916034360063928339045596353810784435313926666640532382851295822842678298180301122938618566718730242107326783353838221723324821405531849499257419595776);
    assert(pow13(0x1_0000_0000_0000_0000) <= 7331559403129590068331208687020758653624765228075687047537011123791632385370343464792392772051104864109916034360063928339045596353810784435313926666640532382851295822842678298180301122938618566718730242107326783353838221723324821405531849499257419595776) by (nonlinear_arith);
}

/// Reads the table of thresholds.
fn threshold_at(k: usize) -> (t: u64)
    requires
        k < 84,
    ensures
        t == threshold(k as int),
{
    match k {
        0 => 1,
        1 => 1,
        2 => 2,
        3 => 4,
        4 => 8,
        5 => 14,
        6 => 24,
        7 => 41,
        8 => 71,
        9 => 121,
        10 => 206,
        11 => 352,
        12 => 600,
        13 => 1024,
        14 => 1745,
        15 => 2974,
        16 => 5069,
        17 => 8640,
        18 => 14726,
        19 => 25099,
        20 => 42779,
        21 => 72910,
        22 => 124266,
        23 => 211794,
        24 => 360974,
        25 => 615231,
        26 => 1048576,
        27 => 1787151,
        28 => 3045951,
        29 => 5191400,
        30 => 8848019,
        31 => 15080216,
        32 => 25702130,
        33 => 43805703,
        34 => 74660723,
        35 => 127248809,
        36 => 216877882,
        37 => 369638159,
        38 => 629996787,
        39 => 1073741824,
        40 => 1830043466,
        41 => 3119054333,
        42 => 5315993916,
        43 => 9060371606,
        44 => 15442142135,
        45 => 26318981613,
        46 => 44857040369,
        47 => 76452580889,
        48 => 130302781381,
        49 => 222082951786,
        50 => 378509475786,
        51 => 645116710255,
        52 => 1099511627776,
        53 => 1873964509671,
        54 => 3193911637490,
        55 => 5443577770789,
        56 => 9277820525401,
        57 => 15812753546660,
        58 => 26950637172040,
        59 => 45933609338544,
        60 => 78287442831032,
        61 => 133430048134257,
        62 => 227412942629070,
        63 => 387593703205260,
        64 => 660599511301355,
        65 => 1125899906842624,
        66 => 1918939657904085,
        67 => 3270565516790432,
        68 => 5574223637288193,
        69 => 9500488218011568,
        70 => 16192259631780200,
        71 => 27597452464169712,
        72 => 47036015962669775,
        73 => 80166341458977381,
        74 => 136632369289479637,
        75 => 232870853252168312,
        76 => 396895952082186416,
        77 => 676453899572588318,
        78 => 1152921504606846976,
        79 => 1964994209693783052,
        80 => 3349059089193403285,
        81 => 5708005004583110629,
        82 => 9728499935243845722,
        _ => 16580873862942925096,
    }
}

/// `1.3 * log2(n)` rounded up, in whole numbers.
pub fn scaled_log2(n: usize) -> (k: usize)
    requires
        n >= 1,
    ensures
        is_scaled_log(n as int, k as int),
        k == scaled_log(n as int),
        k <= 84,
{
    let m: u64 = n as u64;
    let mut k: usize = 0;
    while k < 84 && m > threshold_at(k)
        invariant
            k <= 84,
            m == n,
            forall|j: int| 0 <= j < k ==> threshold(j) < m,
        decreases 84 - k,
    {
        k += 1;
    }
    proof {
        lemma_thresholds();
        if k < 84 {
            lemma_pow13_monotone(m as int, threshold(k as int));
        } else {
            lemma_pow13_monotone(m as int, 0x1_0000_0000_0000_0000);
        }
        if k > 0 {
            lemma_pow13_monotone(threshold(k - 1) + 1, m as int);
        }
        assert(is_scaled_log(n as int, k as int));
        lemma_scaled_log_unique(n as int, k as int, scaled_log(n as int));
    }
    k
}

/// The depth budget for `n` primitives.
pub fn depth_heuristic(n: usize) -> (d: usize)
    ensures
        d == depth_bound(n as int),
        8 <= d <= 92,
{
    if n == 0 {
        8
    } else {
        8 + scaled_log2(n)
    }
}

} // verus!
