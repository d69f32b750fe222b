use vstd::prelude::*;

verus! {

/// The checksum of the addons that ship with the client.
pub const BLIZZARD_ADDON_CRC: u32 = 0x4C1C776D;

/// One addon as the client lists it in its session request.
#[derive(Clone, Debug, PartialEq, Eq)]
pub struct AddonEntry {
    pub name: Vec<u8>,
    pub has_signature: bool,
    pub crc: u32,
    pub extra_crc: u32,
}

impl AddonEntry {
    /// An addon whose checksum is not the stock one is signed with another public key.
    pub fn uses_different_public_key(&self) -> (r: bool)
        ensures
            r == (self.crc != BLIZZARD_ADDON_CRC),
    {
        self.crc != BLIZZARD_ADDON_CRC
    }
}

/// Why the addon list could not be read.
#[derive(Clone, Copy, Debug, PartialEq, Eq, Structural)]
pub enum AddonError {
    Truncated,
    NameNotUtf8,
}

/// Named result of `std::str::from_utf8` succeeding.
pub uninterp spec fn utf8_ok(b: Seq<u8>) -> bool;

/// Relies on `std::str::from_utf8`: whether the bytes are well-formed UTF-8.
#[verifier::external_body]
fn is_utf8(b: &[u8]) -> (r: bool)
    ensures
        r == utf8_ok(b@),
{
    std::str::from_utf8(b).is_ok()
}

/// The little-endian `u32` at `i`.
pub open spec fn le_u32(b: Seq<u8>, i: int) -> int {
    b[i] as int + b[i + 1] as int * 0x100 + b[i + 2] as int * 0x10000 + b[i + 3] as int * 0x1000000
}

/// The first zero byte at or after `i`, or the length when there is none.
pub open spec fn zero_from(b: Seq<u8>, i: int) -> int
    decreases b.len() - i,
{
    if i >= b.len() || i < 0 {
        b.len() as int
    } else if b[i] == 0 {
        i
    } else {
        zero_from(b, i + 1)
    }
}

/// The entry that starts at `pos` after its zero-terminated name: the signature flag,
/// the checksum, the extra checksum, and the position after the entry.
pub open spec fn entry_at(b: Seq<u8>, pos: int) -> Result<(bool, u32, u32, int), AddonError> {
    let z = zero_from(b, pos);
    if z + 10 > b.len() {
        Err(AddonError::Truncated)
    } else if !utf8_ok(b.subrange(pos, z)) {
        Err(AddonError::NameNotUtf8)
    } else {
        Ok((b[z + 1] == 1, le_u32(b, z + 2) as u32, le_u32(b, z + 6) as u32, z + 10))
    }
}

/// What the entry at `pos` holds, with its name bytes.
pub open spec fn entry_matches(e: AddonEntry, b: Seq<u8>, pos: int) -> bool {
    match entry_at(b, pos) {
        Ok((has_signature, crc, extra_crc, _)) => e.name@ == b.subrange(pos, zero_from(b, pos)) && e.has_signature
            == has_signature && e.crc == crc && e.extra_crc == extra_crc,
        Err(_) => false,
    }
}

/// The position after `n` entries read one after another from `pos`, or why they cannot be read.
pub open spec fn entries_ok(b: Seq<u8>, pos: int, n: nat) -> Result<int, AddonError>
    decreases n,
{
    if n == 0 {
        Ok(pos)
    } else {
        match entry_at(b, pos) {
            Ok((_, _, _, next)) => entries_ok(b, next, (n - 1) as nat),
            Err(e) => Err(e),
        }
    }
}

/// `es` are the `es.len()` entries read one after another from `pos`, ending at `end`.
pub open spec fn entries_from(es: Seq<AddonEntry>, b: Seq<u8>, pos: int, end: int) -> bool
    decreases es.len(),
{
    if es.len() == 0 {
        end == pos
    } else {
        entry_matches(es[0], b, pos) && entries_from(es.drop_first(), b, entry_at(b, pos)->Ok_0.3, end)
    }
}

/// The addon list of a session request: a little-endian `u32` count, then that many entries.
pub open spec fn addons_result_ok(b: Seq<u8>, r: Result<Vec<AddonEntry>, AddonError>) -> bool {
    if b.len() < 4 {
        r == Err::<Vec<AddonEntry>, AddonError>(AddonError::Truncated)
    } else {
        match entries_ok(b, 4, le_u32(b, 0) as nat) {
            Ok(end) => r matches Ok(v) && v@.len() == le_u32(b, 0) && entries_from(v@, b, 4, end),
            Err(e) => r == Err::<Vec<AddonEntry>, AddonError>(e),
        }
    }
}

proof fn lemma_entries_from_push(es: Seq<AddonEntry>, e: AddonEntry, b: Seq<u8>, pos: int, mid: int)
    requires
        entries_from(es, b, pos, mid),
        entry_matches(e, b, mid),
    ensures
        entries_from(es.push(e), b, pos, entry_at(b, mid)->Ok_0.3),
    decreases es.len(),
{
    if es.len() == 0 {
        assert(mid == pos);
        assert(es.push(e)[0] == e);
        assert(es.push(e).drop_first() =~= Seq::<AddonEntry>::empty());
        assert(entries_from(es.push(e).drop_first(), b, entry_at(b, pos)->Ok_0.3, entry_at(b, mid)->Ok_0.3));
    } else {
        let next = entry_at(b, pos)->Ok_0.3;
        lemma_entries_from_push(es.drop_first(), e, b, next, mid);
        assert(es.push(e)[0] == es[0]);
        assert(es.push(e).drop_first() =~= es.drop_first().push(e));
    }
}

proof fn lemma_entries_ok_step(b: Seq<u8>, pos: int, n: nat)
    requires
        n > 0,
    ensures
        entries_ok(b, pos, n) == match entry_at(b, pos) {
            Ok((_, _, _, next)) => entries_ok(b, next, (n - 1) as nat),
            Err(e) => Err(e),
        },
{
}

fn read_u32_le(b: &Vec<u8>, i: usize) -> (r: u32)
    requires
        i + 4 <= b@.len(),
    ensures
        r == le_u32(b@, i as int),
{
    let n = b.len();
    let b0 = b[i] as u64;
    let b1 = b[i + 1] as u64;
    let b2 = b[i + 2] as u64;
    let b3 = b[i + 3] as u64;
    assert(b0 < 256 && b1 < 256 && b2 < 256 && b3 < 256);
    let r: u64 = b0 + b1 * 0x100 + b2 * 0x10000 + b3 * 0x1000000;
    r as u32
}

fn find_zero(b: &Vec<u8>, pos: usize) -> (r: usize)
    requires
        pos <= b@.len(),
    ensures
        r == zero_from(b@, pos as int),
        pos <= r <= b@.len(),
{
    let mut i = pos;
    while i < b.len()
        invariant
            pos <= i <= b@.len(),
            zero_from(b@, pos as int) == zero_from(b@, i as int),
        decreases b@.len() - i,
    {
        if b[i] == 0 {
            return i;
        }
        i = i + 1;
    }
    i
}

/// Reads the addon list that a client sends with its session request.
pub fn parse_addon_info(b: &Vec<u8>) -> (r: Result<Vec<AddonEntry>, AddonError>)
    ensures
        addons_result_ok(b@, r),
{
    if b.len() < 4 {
        return Err(AddonError::Truncated);
    }
    let count = read_u32_le(b, 0);
    let mut entries: Vec<AddonEntry> = Vec::new();
    let mut pos: usize = 4;
    let mut k: u32 = 0;
    while k < count
        invariant
            4 <= pos <= b@.len(),
            k <= count,
            count == le_u32(b@, 0),
            entries@.len() == k,
            entries_from(entries@, b@, 4, pos as int),
            entries_ok(b@, 4, count as nat) == entries_ok(b@, pos as int, (count - k) as nat),
        decreases count - k,
    {
        proof { lemma_entries_ok_step(b@, pos as int, (count - k) as nat); }
        let z = find_zero(b, pos);
        if b.len() < 10 || z > b.len() - 10 {
            return Err(AddonError::Truncated);
        }
        let mut name: Vec<u8> = Vec::new();
        let mut i = pos;
        while i < z
            invariant
                pos <= i <= z,
                z <= b@.len(),
                name@ == b@.subrange(pos as int, i as int),
            decreases z - i,
        {
            name.push(b[i]);
            assert(b@.subrange(pos as int, i + 1) == b@.subrange(pos as int, i as int).push(b@[i as int]));
            i = i + 1;
        }
        if !is_utf8(name.as_slice()) {
            return Err(AddonError::NameNotUtf8);
        }
        let e = AddonEntry {
            name,
            has_signature: b[z + 1] == 1,
            crc: read_u32_le(b, z + 2),
            extra_crc: read_u32_le(b, z + 6),
        };
        proof {
            assert(entry_matches(e, b@, pos as int));
            lemma_entries_from_push(entries@, e, b@, 4, pos as int);
        }
        entries.push(e);
        pos = z + 10;
        k = k + 1;
    }
    Ok(entries)
}

} // verus!
