//! Agent identity: personality traits derived deterministically from seed
//! bytes through cryptographic digests, and identity records built from
//! them. The same seed always yields the same traits.

use sha2::{Digest, Sha256, Sha512};
use vstd::prelude::*;
use vstd::string::StringExecFns;

use crate::strutil::chars_to_string;

verus! {

/// An agent's derived personality.
#[derive(Debug)]
pub struct Traits {
    pub domains: Vec<String>,
    pub thinking_styles: Vec<String>,
    pub temperament: String,
}

/// An agent's immutable post-creation identity record.
#[derive(Debug)]
pub struct Identity {
    pub name: String,
    pub genome: String,
    pub traits: Traits,
    pub born: String,
}

/// What SHA-512 makes of a byte string.
pub uninterp spec fn sha512_of(b: Seq<u8>) -> Seq<u8>;

/// Relies on sha2's `Sha512`: the digest is 64 bytes and is a function of
/// the input alone.
#[verifier::external_body]
fn sha512_digest(b: &[u8]) -> (r: Vec<u8>)
    ensures
        r@ == sha512_of(b@),
        r@.len() == 64,
{
    let mut hasher = Sha512::new();
    hasher.update(b);
    hasher.finalize().to_vec()
}

/// What SHA-256 makes of a byte string.
pub uninterp spec fn sha256_of(b: Seq<u8>) -> Seq<u8>;

/// Relies on sha2's `Sha256`: the digest is 32 bytes and is a function of
/// the input alone.
#[verifier::external_body]
fn sha256_digest(b: &[u8]) -> (r: Vec<u8>)
    ensures
        r@ == sha256_of(b@),
        r@.len() == 32,
{
    let mut hasher = Sha256::new();
    hasher.update(b);
    hasher.finalize().to_vec()
}

/// Relies on `rand::random`: thirty-two fresh bytes. The values are
/// random, so nothing more is promised of them.
#[verifier::external_body]
fn random_seed_bytes() -> (r: Vec<u8>)
    ensures
        r@.len() == 32,
{
    let a: [u8; 32] = rand::random();
    a.to_vec()
}

/// The big-endian 32-bit word at `off` in a digest.
pub open spec fn word_at(h: Seq<u8>, off: int) -> nat
    recommends
        0 <= off,
        off + 4 <= h.len(),
{
    (h[off] as nat) * 16777216 + (h[off + 1] as nat) * 65536 + (h[off + 2] as nat) * 256 + (h[off
        + 3] as nat)
}

fn word_at_exec(h: &Vec<u8>, off: usize) -> (r: u32)
    requires
        off + 4 <= h@.len(),
    ensures
        r as nat == word_at(h@, off as int),
{
    let hl = h.len();
    proof {
        assert(off + 4 <= hl);
    }
    (h[off] as u32) * 16777216 + (h[off + 1] as u32) * 65536 + (h[off + 2] as u32) * 256 + (h[off
        + 3] as u32)
}

/// The curated domain list, by index.
pub open spec fn spec_domain(i: int) -> Seq<char> {
    if i == 0 {
        "mycology"@
    } else if i == 1 {
        "orbital mechanics"@
    } else if i == 2 {
        "fermentation"@
    } else if i == 3 {
        "cartography"@
    } else if i == 4 {
        "origami"@
    } else if i == 5 {
        "tidal patterns"@
    } else if i == 6 {
        "cryptography"@
    } else if i == 7 {
        "bioluminescence"@
    } else if i == 8 {
        "typography"@
    } else if i == 9 {
        "sonar"@
    } else if i == 10 {
        "geologic strata"@
    } else if i == 11 {
        "knot theory"@
    } else if i == 12 {
        "permaculture"@
    } else if i == 13 {
        "glassblowing"@
    } else if i == 14 {
        "semaphore"@
    } else if i == 15 {
        "circadian rhythms"@
    } else if i == 16 {
        "folk etymology"@
    } else if i == 17 {
        "tessellation"@
    } else if i == 18 {
        "foraging"@
    } else if i == 19 {
        "acoustics"@
    } else if i == 20 {
        "celestial navigation"@
    } else if i == 21 {
        "pigment chemistry"@
    } else if i == 22 {
        "murmuration"@
    } else if i == 23 {
        "bookbinding"@
    } else if i == 24 {
        "erosion"@
    } else if i == 25 {
        "signal processing"@
    } else if i == 26 {
        "mycelial networks"@
    } else if i == 27 {
        "letterpress"@
    } else if i == 28 {
        "thermodynamics"@
    } else if i == 29 {
        "tidepool ecology"@
    } else if i == 30 {
        "radio astronomy"@
    } else if i == 31 {
        "psychoacoustics"@
    } else if i == 32 {
        "weaving patterns"@
    } else if i == 33 {
        "volcanic geology"@
    } else if i == 34 {
        "ciphers"@
    } else if i == 35 {
        "birdsong"@
    } else if i == 36 {
        "fractal geometry"@
    } else if i == 37 {
        "archival science"@
    } else if i == 38 {
        "hydrology"@
    } else if i == 39 {
        "clockwork"@
    } else if i == 40 {
        "seed dispersal"@
    } else if i == 41 {
        "morse code"@
    } else if i == 42 {
        "cloud formation"@
    } else if i == 43 {
        "metalwork"@
    } else if i == 44 {
        "braille systems"@
    } else if i == 45 {
        "stellar nucleosynthesis"@
    } else if i == 46 {
        "composting"@
    } else if i == 47 {
        "map projection"@
    } else if i == 48 {
        "wind patterns"@
    } else if i == 49 {
        "amber preservation"@
    } else {
        Seq::empty()
    }
}

/// Pick a domain entry by index.
pub fn domain_at(i: usize) -> (r: &'static str)
    requires
        i < 50,
    ensures
        r@ == spec_domain(i as int),
{
    if i == 0 {
        "mycology"
    } else if i == 1 {
        "orbital mechanics"
    } else if i == 2 {
        "fermentation"
    } else if i == 3 {
        "cartography"
    } else if i == 4 {
        "origami"
    } else if i == 5 {
        "tidal patterns"
    } else if i == 6 {
        "cryptography"
    } else if i == 7 {
        "bioluminescence"
    } else if i == 8 {
        "typography"
    } else if i == 9 {
        "sonar"
    } else if i == 10 {
        "geologic strata"
    } else if i == 11 {
        "knot theory"
    } else if i == 12 {
        "permaculture"
    } else if i == 13 {
        "glassblowing"
    } else if i == 14 {
        "semaphore"
    } else if i == 15 {
        "circadian rhythms"
    } else if i == 16 {
        "folk etymology"
    } else if i == 17 {
        "tessellation"
    } else if i == 18 {
        "foraging"
    } else if i == 19 {
        "acoustics"
    } else if i == 20 {
        "celestial navigation"
    } else if i == 21 {
        "pigment chemistry"
    } else if i == 22 {
        "murmuration"
    } else if i == 23 {
        "bookbinding"
    } else if i == 24 {
        "erosion"
    } else if i == 25 {
        "signal processing"
    } else if i == 26 {
        "mycelial networks"
    } else if i == 27 {
        "letterpress"
    } else if i == 28 {
        "thermodynamics"
    } else if i == 29 {
        "tidepool ecology"
    } else if i == 30 {
        "radio astronomy"
    } else if i == 31 {
        "psychoacoustics"
    } else if i == 32 {
        "weaving patterns"
    } else if i == 33 {
        "volcanic geology"
    } else if i == 34 {
        "ciphers"
    } else if i == 35 {
        "birdsong"
    } else if i == 36 {
        "fractal geometry"
    } else if i == 37 {
        "archival science"
    } else if i == 38 {
        "hydrology"
    } else if i == 39 {
        "clockwork"
    } else if i == 40 {
        "seed dispersal"
    } else if i == 41 {
        "morse code"
    } else if i == 42 {
        "cloud formation"
    } else if i == 43 {
        "metalwork"
    } else if i == 44 {
        "braille systems"
    } else if i == 45 {
        "stellar nucleosynthesis"
    } else if i == 46 {
        "composting"
    } else if i == 47 {
        "map projection"
    } else if i == 48 {
        "wind patterns"
    } else if i == 49 {
        "amber preservation"
    } else {
        "amber preservation"
    }
}

/// The curated thinking_style list, by index.
pub open spec fn spec_thinking_style(i: int) -> Seq<char> {
    if i == 0 {
        "connecting disparate ideas"@
    } else if i == 1 {
        "following chains of cause and effect"@
    } else if i == 2 {
        "finding patterns in noise"@
    } else if i == 3 {
        "deconstructing systems into parts"@
    } else if i == 4 {
        "building mental models"@
    } else if i == 5 {
        "tracing things back to first principles"@
    } else if i == 6 {
        "mapping relationships between concepts"@
    } else if i == 7 {
        "looking for what's missing"@
    } else if i == 8 {
        "inverting assumptions"@
    } else if i == 9 {
        "layering details into bigger pictures"@
    } else if i == 10 {
        "noticing what others overlook"@
    } else if i == 11 {
        "asking why something works at all"@
    } else if i == 12 {
        "translating between domains"@
    } else if i == 13 {
        "following the smallest thread"@
    } else if i == 14 {
        "collecting and comparing examples"@
    } else if i == 15 {
        "sketching out taxonomies"@
    } else {
        Seq::empty()
    }
}

/// Pick a thinking_style entry by index.
pub fn thinking_style_at(i: usize) -> (r: &'static str)
    requires
        i < 16,
    ensures
        r@ == spec_thinking_style(i as int),
{
    if i == 0 {
        "connecting disparate ideas"
    } else if i == 1 {
        "following chains of cause and effect"
    } else if i == 2 {
        "finding patterns in noise"
    } else if i == 3 {
        "deconstructing systems into parts"
    } else if i == 4 {
        "building mental models"
    } else if i == 5 {
        "tracing things back to first principles"
    } else if i == 6 {
        "mapping relationships between concepts"
    } else if i == 7 {
        "looking for what's missing"
    } else if i == 8 {
        "inverting assumptions"
    } else if i == 9 {
        "layering details into bigger pictures"
    } else if i == 10 {
        "noticing what others overlook"
    } else if i == 11 {
        "asking why something works at all"
    } else if i == 12 {
        "translating between domains"
    } else if i == 13 {
        "following the smallest thread"
    } else if i == 14 {
        "collecting and comparing examples"
    } else if i == 15 {
        "sketching out taxonomies"
    } else {
        "sketching out taxonomies"
    }
}

/// The curated temperament list, by index.
pub open spec fn spec_temperament(i: int) -> Seq<char> {
    if i == 0 {
        "patient and methodical"@
    } else if i == 1 {
        "restless and wide-ranging"@
    } else if i == 2 {
        "meticulous and detail-oriented"@
    } else if i == 3 {
        "playful and associative"@
    } else if i == 4 {
        "intense and focused"@
    } else if i == 5 {
        "wandering and serendipitous"@
    } else if i == 6 {
        "quiet and observational"@
    } else if i == 7 {
        "energetic and prolific"@
    } else {
        Seq::empty()
    }
}

/// Pick a temperament entry by index.
pub fn temperament_at(i: usize) -> (r: &'static str)
    requires
        i < 8,
    ensures
        r@ == spec_temperament(i as int),
{
    if i == 0 {
        "patient and methodical"
    } else if i == 1 {
        "restless and wide-ranging"
    } else if i == 2 {
        "meticulous and detail-oriented"
    } else if i == 3 {
        "playful and associative"
    } else if i == 4 {
        "intense and focused"
    } else if i == 5 {
        "wandering and serendipitous"
    } else if i == 6 {
        "quiet and observational"
    } else if i == 7 {
        "energetic and prolific"
    } else {
        "energetic and prolific"
    }
}

/// The domain the digest picks at `off`.
pub open spec fn picked_domain(h: Seq<u8>, off: int) -> Seq<char> {
    spec_domain((word_at(h, off) % 50) as int)
}

/// The thinking style the digest picks at `off`.
pub open spec fn picked_style(h: Seq<u8>, off: int) -> Seq<char> {
    spec_thinking_style((word_at(h, off) % 16) as int)
}

/// The fallback pick when a slot collides: a fresh digest of the first
/// digest and the slot's tag byte decides.
pub open spec fn collision_domain(h: Seq<u8>, tag: u8) -> Seq<char> {
    spec_domain((word_at(sha256_of(h.push(tag)), 0) % 50) as int)
}

/// The fallback style pick on a collision.
pub open spec fn collision_style(h: Seq<u8>, tag: u8) -> Seq<char> {
    spec_thinking_style((word_at(sha256_of(h.push(tag)), 0) % 16) as int)
}

fn pick_domain(h: &Vec<u8>, off: usize) -> (r: &'static str)
    requires
        off + 4 <= h@.len(),
    ensures
        r@ == picked_domain(h@, off as int),
{
    let w = word_at_exec(h, off);
    domain_at((w % 50) as usize)
}

fn pick_style(h: &Vec<u8>, off: usize) -> (r: &'static str)
    requires
        off + 4 <= h@.len(),
    ensures
        r@ == picked_style(h@, off as int),
{
    let w = word_at_exec(h, off);
    thinking_style_at((w % 16) as usize)
}

fn collision_redraw(h: &Vec<u8>, tag: u8) -> (r: Vec<u8>)
    ensures
        r@ == sha256_of(h@.push(tag)),
        r@.len() == 32,
{
    let mut buf: Vec<u8> = Vec::new();
    let mut i: usize = 0;
    while i < h.len()
        invariant
            i <= h@.len(),
            buf@ == h@.subrange(0, i as int),
        decreases h@.len() - i,
    {
        buf.push(h[i]);
        proof {
            assert(buf@ =~= h@.subrange(0, i + 1));
        }
        i += 1;
    }
    proof {
        assert(buf@ =~= h@);
    }
    buf.push(tag);
    proof {
        assert(buf@ =~= h@.push(tag));
    }
    sha256_digest(buf.as_slice())
}

/// The three domains a seed derives, collisions redrawn from a tagged
/// second digest.
pub open spec fn derived_domains(h: Seq<u8>) -> Seq<Seq<char>> {
    let d0 = picked_domain(h, 0);
    let d1r = picked_domain(h, 4);
    let d1 = if d1r == d0 {
        collision_domain(h, 11)
    } else {
        d1r
    };
    let d2r = picked_domain(h, 8);
    let d2 = if d2r == d0 || d2r == d1 {
        collision_domain(h, 12)
    } else {
        d2r
    };
    seq![d0, d1, d2]
}

/// The two thinking styles a seed derives.
pub open spec fn derived_styles(h: Seq<u8>) -> Seq<Seq<char>> {
    let s0 = picked_style(h, 12);
    let s1r = picked_style(h, 16);
    let s1 = if s1r == s0 {
        collision_style(h, 21)
    } else {
        s1r
    };
    seq![s0, s1]
}

/// Deterministically derive personality traits from raw seed bytes: three
/// domains, two thinking styles and a temperament, each picked by 32-bit
/// words of the seed's SHA-512 digest, with collisions redrawn from tagged
/// SHA-256 digests.
pub fn derive_traits(seed_bytes: &[u8]) -> (r: Traits)
    ensures
        ({
            let h = sha512_of(seed_bytes@);
            &&& r.domains@.len() == 3
            &&& r.domains@[0]@ == derived_domains(h)[0]
            &&& r.domains@[1]@ == derived_domains(h)[1]
            &&& r.domains@[2]@ == derived_domains(h)[2]
            &&& r.thinking_styles@.len() == 2
            &&& r.thinking_styles@[0]@ == derived_styles(h)[0]
            &&& r.thinking_styles@[1]@ == derived_styles(h)[1]
            &&& r.temperament@ == spec_temperament((word_at(h, 20) % 8) as int)
        }),
{
    let h = sha512_digest(seed_bytes);
    let d0 = pick_domain(&h, 0);
    let d1r = pick_domain(&h, 4);
    let d1: String = if crate::strutil::str_eq(d1r, d0) {
        let h2 = collision_redraw(&h, 11);
        let w = word_at_exec(&h2, 0);
        domain_at((w % 50) as usize).to_owned()
    } else {
        d1r.to_owned()
    };
    let d2r = pick_domain(&h, 8);
    let d2: String = if crate::strutil::str_eq(d2r, d0) || crate::strutil::str_eq(
        d2r,
        d1.as_str(),
    ) {
        let h2 = collision_redraw(&h, 12);
        let w = word_at_exec(&h2, 0);
        domain_at((w % 50) as usize).to_owned()
    } else {
        d2r.to_owned()
    };
    let mut domains: Vec<String> = Vec::new();
    domains.push(d0.to_owned());
    domains.push(d1);
    domains.push(d2);
    let s0 = pick_style(&h, 12);
    let s1r = pick_style(&h, 16);
    let s1: String = if crate::strutil::str_eq(s1r, s0) {
        let h2 = collision_redraw(&h, 21);
        let w = word_at_exec(&h2, 0);
        thinking_style_at((w % 16) as usize).to_owned()
    } else {
        s1r.to_owned()
    };
    let mut styles: Vec<String> = Vec::new();
    styles.push(s0.to_owned());
    styles.push(s1);
    let wt = word_at_exec(&h, 20);
    let temperament = temperament_at((wt % 8) as usize).to_owned();
    Traits { domains, thinking_styles: styles, temperament }
}

/// Build an identity: the genome is the seed in hex, the traits are
/// derived from the seed, the birth stamp is taken as given.
pub fn create_identity(name: &str, seed_bytes: &[u8], born: String) -> (r: Identity)
    ensures
        r.name@ == name@,
        r.genome@ == crate::hex::hex_of(seed_bytes@),
        r.born@ == born@,
        ({
            let h = sha512_of(seed_bytes@);
            &&& r.traits.domains@.len() == 3
            &&& r.traits.domains@[0]@ == derived_domains(h)[0]
            &&& r.traits.domains@[1]@ == derived_domains(h)[1]
            &&& r.traits.domains@[2]@ == derived_domains(h)[2]
            &&& r.traits.thinking_styles@.len() == 2
            &&& r.traits.temperament@ == spec_temperament((word_at(h, 20) % 8) as int)
        }),
{
    let genome = crate::hex::encode(seed_bytes);
    let traits = derive_traits(seed_bytes);
    Identity { name: name.to_owned(), genome, traits, born }
}

/// Build an identity from fresh entropy: the seed is the SHA-256 digest of
/// the name, the given nanosecond stamp and thirty-two random bytes.
pub fn create_identity_random(name: &str, nanos: i64, born: String) -> (r: Identity)
    ensures
        r.name@ == name@,
        r.traits.domains@.len() == 3,
        r.traits.thinking_styles@.len() == 2,
        r.genome@.len() == 64,
{
    let mut buf: Vec<u8> = Vec::new();
    let name_bytes = name.as_bytes();
    let mut i: usize = 0;
    while i < name_bytes.len()
        invariant
            i <= name_bytes@.len(),
        decreases name_bytes@.len() - i,
    {
        buf.push(name_bytes[i]);
        i += 1;
    }
    push_be_i64(&mut buf, nanos);
    let rnd = random_seed_bytes();
    let mut j: usize = 0;
    while j < rnd.len()
        invariant
            j <= rnd@.len(),
        decreases rnd@.len() - j,
    {
        buf.push(rnd[j]);
        j += 1;
    }
    let seed = sha256_digest(buf.as_slice());
    let id = create_identity(name, seed.as_slice(), born);
    proof {
        assert(crate::hex::hex_of(seed@).len() == 2 * 32);
    }
    id
}

/// Append the big-endian bytes of a 64-bit integer.
fn push_be_i64(out: &mut Vec<u8>, v: i64)
    ensures
        final(out)@.len() == old(out)@.len() + 8,
{
    let u = v as u64;
    out.push((u >> 56) as u8);
    out.push((u >> 48) as u8);
    out.push((u >> 40) as u8);
    out.push((u >> 32) as u8);
    out.push((u >> 24) as u8);
    out.push((u >> 16) as u8);
    out.push((u >> 8) as u8);
    out.push(u as u8);
}

} // verus!
