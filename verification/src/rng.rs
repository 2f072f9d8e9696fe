use vstd::prelude::*;
use rand::Rng;
use rand::SeedableRng;

verus! {

broadcast use vstd::array::group_array_axioms;

/// Population weights for the 151 species, in species order. Entry `i` is the
/// number of specimens of species `i + 1` within a total population of
/// ten million; the entries sum exactly to `POPULATION`.
pub const POKEMON_LIST: [u32; 151] = [
    376, 251, 188, 376, 251, 188, 376, 251, 188, 187967, 9398, 4699, 187967, 9398, 4699, 187967,
    187967, 187967, 187967, 187967, 187967, 187967, 187967, 187967, 376, 342, 187967, 187967,
    187967, 187967, 187967, 187967, 187967, 31328, 93983, 23496, 37593, 18797, 187967, 18797,
    187967, 187967, 187967, 93983, 187967, 187967, 93983, 187967, 93983, 187967, 18797, 187967,
    93983, 187967, 187967, 187967, 37593, 18797, 9398, 37593, 18797, 9398, 37593, 18797, 9398,
    37593, 18797, 9398, 37593, 18797, 9398, 187967, 93983, 187967, 93983, 46992, 46992, 31328,
    187967, 93983, 187967, 62656, 62656, 187967, 62656, 187967, 62656, 187967, 62656, 31328, 18797,
    37593, 18797, 9398, 187967, 187967, 46992, 187967, 62656, 187967, 46992, 23496, 18797, 46992,
    26852, 6266, 6266, 9398, 18797, 9398, 18797, 9398, 9398, 9398, 9398, 7519, 4699, 7519, 4699,
    7519, 4699, 3759, 3759, 3759, 3759, 3759, 3759, 4699, 3759, 3759, 3759, 3759, 3759, 1880, 1880,
    1880, 1880, 1213, 964, 1213, 964, 964, 964, 188, 188, 188, 627, 470, 372, 31, 20,
];

/// The total population, and so the exclusive upper bound of the draw.
pub const POPULATION: u32 = 10_000_000;

/// Sum of the first `i` weights.
pub open spec fn weight_prefix_sum(i: int) -> int
    decreases i,
{
    if i <= 0 {
        0
    } else {
        weight_prefix_sum(i - 1) + POKEMON_LIST@[i - 1]
    }
}

/// The whole table sums to the population.  The proof walks the table one
/// prefix at a time, since each assertion can unfold the sum by one entry.
pub proof fn lemma_weights_total()
    ensures
        weight_prefix_sum(151) == POPULATION,
{
    assert(weight_prefix_sum(0) == 0);
    assert(weight_prefix_sum(1) == 376);
    assert(weight_prefix_sum(2) == 627);
    assert(weight_prefix_sum(3) == 815);
    assert(weight_prefix_sum(4) == 1191);
    assert(weight_prefix_sum(5) == 1442);
    assert(weight_prefix_sum(6) == 1630);
    assert(weight_prefix_sum(7) == 2006);
    assert(weight_prefix_sum(8) == 2257);
    assert(weight_prefix_sum(9) == 2445);
    assert(weight_prefix_sum(10) == 190412);
    assert(weight_prefix_sum(11) == 199810);
    assert(weight_prefix_sum(12) == 204509);
    assert(weight_prefix_sum(13) == 392476);
    assert(weight_prefix_sum(14) == 401874);
    assert(weight_prefix_sum(15) == 406573);
    assert(weight_prefix_sum(16) == 594540);
    assert(weight_prefix_sum(17) == 782507);
    assert(weight_prefix_sum(18) == 970474);
    assert(weight_prefix_sum(19) == 1158441);
    assert(weight_prefix_sum(20) == 1346408);
    assert(weight_prefix_sum(21) == 1534375);
    assert(weight_prefix_sum(22) == 1722342);
    assert(weight_prefix_sum(23) == 1910309);
    assert(weight_prefix_sum(24) == 2098276);
    assert(weight_prefix_sum(25) == 2098652);
    assert(weight_prefix_sum(26) == 2098994);
    assert(weight_prefix_sum(27) == 2286961);
    assert(weight_prefix_sum(28) == 2474928);
    assert(weight_prefix_sum(29) == 2662895);
    assert(weight_prefix_sum(30) == 2850862);
    assert(weight_prefix_sum(31) == 3038829);
    assert(weight_prefix_sum(32) == 3226796);
    assert(weight_prefix_sum(33) == 3414763);
    assert(weight_prefix_sum(34) == 3446091);
    assert(weight_prefix_sum(35) == 3540074);
    assert(weight_prefix_sum(36) == 3563570);
    assert(weight_prefix_sum(37) == 3601163);
    assert(weight_prefix_sum(38) == 3619960);
    assert(weight_prefix_sum(39) == 3807927);
    assert(weight_prefix_sum(40) == 3826724);
    assert(weight_prefix_sum(41) == 4014691);
    assert(weight_prefix_sum(42) == 4202658);
    assert(weight_prefix_sum(43) == 4390625);
    assert(weight_prefix_sum(44) == 4484608);
    assert(weight_prefix_sum(45) == 4672575);
    assert(weight_prefix_sum(46) == 4860542);
    assert(weight_prefix_sum(47) == 4954525);
    assert(weight_prefix_sum(48) == 5142492);
    assert(weight_prefix_sum(49) == 5236475);
    assert(weight_prefix_sum(50) == 5424442);
    assert(weight_prefix_sum(51) == 5443239);
    assert(weight_prefix_sum(52) == 5631206);
    assert(weight_prefix_sum(53) == 5725189);
    assert(weight_prefix_sum(54) == 5913156);
    assert(weight_prefix_sum(55) == 6101123);
    assert(weight_prefix_sum(56) == 6289090);
    assert(weight_prefix_sum(57) == 6326683);
    assert(weight_prefix_sum(58) == 6345480);
    assert(weight_prefix_sum(59) == 6354878);
    assert(weight_prefix_sum(60) == 6392471);
    assert(weight_prefix_sum(61) == 6411268);
    assert(weight_prefix_sum(62) == 6420666);
    assert(weight_prefix_sum(63) == 6458259);
    assert(weight_prefix_sum(64) == 6477056);
    assert(weight_prefix_sum(65) == 6486454);
    assert(weight_prefix_sum(66) == 6524047);
    assert(weight_prefix_sum(67) == 6542844);
    assert(weight_prefix_sum(68) == 6552242);
    assert(weight_prefix_sum(69) == 6589835);
    assert(weight_prefix_sum(70) == 6608632);
    assert(weight_prefix_sum(71) == 6618030);
    assert(weight_prefix_sum(72) == 6805997);
    assert(weight_prefix_sum(73) == 6899980);
    assert(weight_prefix_sum(74) == 7087947);
    assert(weight_prefix_sum(75) == 7181930);
    assert(weight_prefix_sum(76) == 7228922);
    assert(weight_prefix_sum(77) == 7275914);
    assert(weight_prefix_sum(78) == 7307242);
    assert(weight_prefix_sum(79) == 7495209);
    assert(weight_prefix_sum(80) == 7589192);
    assert(weight_prefix_sum(81) == 7777159);
    assert(weight_prefix_sum(82) == 7839815);
    assert(weight_prefix_sum(83) == 7902471);
    assert(weight_prefix_sum(84) == 8090438);
    assert(weight_prefix_sum(85) == 8153094);
    assert(weight_prefix_sum(86) == 8341061);
    assert(weight_prefix_sum(87) == 8403717);
    assert(weight_prefix_sum(88) == 8591684);
    assert(weight_prefix_sum(89) == 8654340);
    assert(weight_prefix_sum(90) == 8685668);
    assert(weight_prefix_sum(91) == 8704465);
    assert(weight_prefix_sum(92) == 8742058);
    assert(weight_prefix_sum(93) == 8760855);
    assert(weight_prefix_sum(94) == 8770253);
    assert(weight_prefix_sum(95) == 8958220);
    assert(weight_prefix_sum(96) == 9146187);
    assert(weight_prefix_sum(97) == 9193179);
    assert(weight_prefix_sum(98) == 9381146);
    assert(weight_prefix_sum(99) == 9443802);
    assert(weight_prefix_sum(100) == 9631769);
    assert(weight_prefix_sum(101) == 9678761);
    assert(weight_prefix_sum(102) == 9702257);
    assert(weight_prefix_sum(103) == 9721054);
    assert(weight_prefix_sum(104) == 9768046);
    assert(weight_prefix_sum(105) == 9794898);
    assert(weight_prefix_sum(106) == 9801164);
    assert(weight_prefix_sum(107) == 9807430);
    assert(weight_prefix_sum(108) == 9816828);
    assert(weight_prefix_sum(109) == 9835625);
    assert(weight_prefix_sum(110) == 9845023);
    assert(weight_prefix_sum(111) == 9863820);
    assert(weight_prefix_sum(112) == 9873218);
    assert(weight_prefix_sum(113) == 9882616);
    assert(weight_prefix_sum(114) == 9892014);
    assert(weight_prefix_sum(115) == 9901412);
    assert(weight_prefix_sum(116) == 9908931);
    assert(weight_prefix_sum(117) == 9913630);
    assert(weight_prefix_sum(118) == 9921149);
    assert(weight_prefix_sum(119) == 9925848);
    assert(weight_prefix_sum(120) == 9933367);
    assert(weight_prefix_sum(121) == 9938066);
    assert(weight_prefix_sum(122) == 9941825);
    assert(weight_prefix_sum(123) == 9945584);
    assert(weight_prefix_sum(124) == 9949343);
    assert(weight_prefix_sum(125) == 9953102);
    assert(weight_prefix_sum(126) == 9956861);
    assert(weight_prefix_sum(127) == 9960620);
    assert(weight_prefix_sum(128) == 9965319);
    assert(weight_prefix_sum(129) == 9969078);
    assert(weight_prefix_sum(130) == 9972837);
    assert(weight_prefix_sum(131) == 9976596);
    assert(weight_prefix_sum(132) == 9980355);
    assert(weight_prefix_sum(133) == 9984114);
    assert(weight_prefix_sum(134) == 9985994);
    assert(weight_prefix_sum(135) == 9987874);
    assert(weight_prefix_sum(136) == 9989754);
    assert(weight_prefix_sum(137) == 9991634);
    assert(weight_prefix_sum(138) == 9992847);
    assert(weight_prefix_sum(139) == 9993811);
    assert(weight_prefix_sum(140) == 9995024);
    assert(weight_prefix_sum(141) == 9995988);
    assert(weight_prefix_sum(142) == 9996952);
    assert(weight_prefix_sum(143) == 9997916);
    assert(weight_prefix_sum(144) == 9998104);
    assert(weight_prefix_sum(145) == 9998292);
    assert(weight_prefix_sum(146) == 9998480);
    assert(weight_prefix_sum(147) == 9999107);
    assert(weight_prefix_sum(148) == 9999577);
    assert(weight_prefix_sum(149) == 9999949);
    assert(weight_prefix_sum(150) == 9999980);
    assert(weight_prefix_sum(151) == 10000000);
}

/// One step of the cumulative walk over the weight table: starting at entry
/// `idx` with remainder `rem`, the species is `idx + 1` as soon as the entry's
/// weight reaches the remainder, and otherwise the walk continues with the
/// weight subtracted.  `0` stands for an exhausted table, which never happens
/// while the remainder is at most the weight still ahead.
pub open spec fn walk(rem: int, idx: int) -> int
    decreases 151 - idx,
{
    if idx < 0 || idx >= 151 {
        0
    } else if POKEMON_LIST@[idx] >= rem {
        idx + 1
    } else {
        walk(rem - POKEMON_LIST@[idx], idx + 1)
    }
}

/// The walk finds a species in `[idx + 1, 151]` whenever the remainder does not
/// exceed the total weight still ahead of position `idx`.
pub proof fn lemma_walk_in_range(rem: int, idx: int)
    requires
        0 <= idx < 151,
        0 <= rem,
        rem <= POPULATION - weight_prefix_sum(idx),
    ensures
        idx + 1 <= walk(rem, idx) <= 151,
    decreases 151 - idx,
{
    if POKEMON_LIST@[idx] >= rem {
    } else {
        assert(weight_prefix_sum(idx + 1) == weight_prefix_sum(idx) + POKEMON_LIST@[idx]);
        if idx + 1 < 151 {
            lemma_walk_in_range(rem - POKEMON_LIST@[idx], idx + 1);
        } else {
            lemma_weights_total();
        }
    }
}

/// The single uniformly distributed integer in `[0, POPULATION)` that the
/// stream generator yields when its state is exactly the given 32 seed bytes.
pub uninterp spec fn chacha_draw(seed: Seq<u8>) -> u32;

/// Relies on rand_chacha's `ChaChaRng::from_seed`, whose stream is a pure
/// function of the 32-byte seed, and on rand's `Rng::gen_range`, which returns
/// a value of the half-open range it is given.
#[verifier::external_body]
fn draw_in_population(seed: &[u8; 32]) -> (r: u32)
    ensures
        r == chacha_draw(seed@),
        r < POPULATION,
{
    let mut generator = rand_chacha::ChaChaRng::from_seed(*seed);
    generator.gen_range(0..POPULATION)
}

/// The species assigned to a seed: the cumulative walk applied to the seed's draw.
pub open spec fn spec_sample(seed: Seq<u8>) -> int {
    walk(chacha_draw(seed) as int, 0)
}

/// The cumulative walk in executable form.  For every draw below the total
/// population it lands on a species between 1 and 151; the exhaustion arm is
/// provably dead but kept so that a malformed table could never yield a species.
pub fn species_from_draw(draw: u32) -> (r: u32)
    requires
        draw < POPULATION,
    ensures
        r == walk(draw as int, 0),
        1 <= r <= 151,
{
    proof {
        lemma_walk_in_range(draw as int, 0);
    }
    let weights: [u32; 151] = POKEMON_LIST;
    let mut rem: u32 = draw;
    let mut idx: usize = 0;
    while idx < 151
        invariant
            0 <= idx <= 151,
            weights == POKEMON_LIST,
            walk(draw as int, 0) == walk(rem as int, idx as int),
            rem as int <= POPULATION - weight_prefix_sum(idx as int),
            idx > 0 ==> rem > 0,
        decreases 151 - idx,
    {
        let population = weights[idx];
        if population >= rem {
            return (idx as u32) + 1;
        }
        proof {
            assert(weight_prefix_sum(idx as int + 1) == weight_prefix_sum(idx as int)
                + POKEMON_LIST@[idx as int]);
        }
        rem = rem.saturating_sub(population);
        idx += 1;
    }
    proof {
        lemma_weights_total();
    }
    0
}

/// The ways turning a value into a seed can fail.
#[derive(Debug, PartialEq, Eq, Structural, Clone, Copy)]
pub enum Error {
    SeedNot32Bytes,
}

/// The UTF-8 encoding of a character sequence.
pub uninterp spec fn utf8_bytes(s: Seq<char>) -> Seq<u8>;

/// Relies on `str::as_bytes`: it returns the UTF-8 encoding of the string,
/// a pure function of its characters.
#[verifier::external_body]
fn string_utf8_bytes(s: &String) -> (r: Vec<u8>)
    ensures
        r@ == utf8_bytes(s@),
{
    s.as_bytes().to_vec()
}

/// A value that can serve as the 32-byte seed of a token.
pub trait IntoSeed {
    /// What the conversion yields: either the 32 seed bytes or the reason
    /// the value cannot be a seed.
    spec fn spec_into_seed(&self) -> Result<Seq<u8>, Error>;

    /// Turn the value into a seed, exactly as `spec_into_seed` says.
    fn into_seed(&self) -> (r: Result<[u8; 32], Error>)
        ensures
            (match (r, self.spec_into_seed()) {
                (Ok(a), Ok(s)) => a@ == s,
                (Err(e), Err(se)) => e == se,
                _ => false,
            }),
    ;
}

impl IntoSeed for [u8; 32] {
    open spec fn spec_into_seed(&self) -> Result<Seq<u8>, Error> {
        Ok(self@)
    }

    fn into_seed(&self) -> (r: Result<[u8; 32], Error>) {
        Ok(*self)
    }
}

impl IntoSeed for String {
    open spec fn spec_into_seed(&self) -> Result<Seq<u8>, Error> {
        if utf8_bytes(self@).len() == 32 {
            Ok(utf8_bytes(self@))
        } else {
            Err(Error::SeedNot32Bytes)
        }
    }

    fn into_seed(&self) -> (r: Result<[u8; 32], Error>) {
        let bytes = string_utf8_bytes(self);
        if bytes.len() != 32 {
            return Err(Error::SeedNot32Bytes);
        }
        let mut seed: [u8; 32] = [0u8; 32];
        let mut i: usize = 0;
        while i < 32
            invariant
                bytes@ == utf8_bytes(self@),
                bytes@.len() == 32,
                0 <= i <= 32,
                seed@.len() == 32,
                forall|j: int| 0 <= j < i ==> seed@[j] == bytes@[j],
            decreases 32 - i,
        {
            seed[i] = bytes[i];
            i += 1;
        }
        proof {
            assert(seed@ =~= utf8_bytes(self@));
        }
        Ok(seed)
    }
}

/// Assign a species to anything that can serve as a seed.  The result is
/// deterministic: it depends on the seed bytes alone, so repeated calls on
/// equal seeds agree, and the species always lies in `[1, 151]`.
pub fn sample<T: IntoSeed>(seed: T) -> (r: Result<u32, Error>)
    ensures
        (match (r, seed.spec_into_seed()) {
            (Ok(id), Ok(s)) => id == spec_sample(s) && 1 <= id <= 151,
            (Err(e), Err(se)) => e == se,
            _ => false,
        }),
{
    match seed.into_seed() {
        Err(e) => Err(e),
        Ok(bytes) => {
            let draw = draw_in_population(&bytes);
            Ok(species_from_draw(draw))
        },
    }
}

} // verus!
