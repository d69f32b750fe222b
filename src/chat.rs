use crate::realm::str_equal;
use vstd::prelude::*;

verus! {

/// A game-master command typed into the chat.
#[derive(Clone, Debug, PartialEq, Eq)]
pub enum GmCommand {
    /// `.speed`, with the word that follows it, if any, for the caller to read as a speed.
    Speed { argument: Option<String> },
    /// `.additem <item id>`.
    AddItem { item_id: u32 },
    /// A command that is not known, or lacks what it needs.
    Ignored,
}

/// Named result of `str::to_lowercase`.
pub uninterp spec fn lower_of(s: Seq<char>) -> Seq<char>;

/// Relies on `str::to_lowercase`: the result depends on the characters alone.
#[verifier::external_body]
fn to_lower(s: &str) -> (r: String)
    ensures
        r@ == lower_of(s@),
{
    s.to_lowercase()
}

/// The first two words after the leading character of `s`, as `(start, end)` pairs.
pub open spec fn first_words(s: Seq<char>) -> (int, int, int, int) {
    let a0 = scan(s, 1, false);
    let e0 = scan(s, a0, true);
    let a1 = scan(s, e0, false);
    let e1 = scan(s, a1, true);
    (a0, e0, a1, e1)
}

/// What a chat message means as a command: `None` when it does not start with `.`.
pub open spec fn gm_command_of(s: Seq<char>, c: Option<GmCommand>) -> bool {
    let (a0, e0, a1, e1) = first_words(s);
    let second = if a1 < s.len() { Some(s.subrange(a1, e1)) } else { None::<Seq<char>> };
    if s.len() == 0 || s[0] != '.' {
        c is None
    } else if a0 >= s.len() {
        c == Some(GmCommand::Ignored)
    } else if lower_of(s.subrange(a0, e0)) == "speed"@ {
        c matches Some(GmCommand::Speed { argument }) && match second {
            Some(w) => argument is Some && argument->Some_0@ == w,
            None => argument is None,
        }
    } else if lower_of(s.subrange(a0, e0)) == "additem"@ {
        match second {
            Some(w) => match parse_u32_spec(w) {
                Some(id) => c == Some(GmCommand::AddItem { item_id: id }),
                None => c == Some(GmCommand::Ignored),
            },
            None => c == Some(GmCommand::Ignored),
        }
    } else {
        c == Some(GmCommand::Ignored)
    }
}

/// Reads a chat message as a game-master command.
pub fn parse_gm_command(message: &str) -> (r: Option<GmCommand>)
    ensures
        gm_command_of(message@, r),
{
    let n = message.unicode_len();
    if n == 0 || message.get_char(0) != '.' {
        return None;
    }
    let a0 = scan_exec(message, 1, false);
    if a0 >= n {
        return Some(GmCommand::Ignored);
    }
    let e0 = scan_exec(message, a0, true);
    let a1 = scan_exec(message, e0, false);
    let e1 = scan_exec(message, a1, true);
    let first = to_lower(message.substring_char(a0, e0));
    let second: Option<&str> = if a1 < n { Some(message.substring_char(a1, e1)) } else { None };
    proof {
        reveal_strlit("speed");
        reveal_strlit("additem");
    }
    if str_equal(first.as_str(), "speed") {
        let argument = match second {
            Some(w) => Some(w.to_owned()),
            None => None,
        };
        Some(GmCommand::Speed { argument })
    } else if str_equal(first.as_str(), "additem") {
        match second {
            Some(w) => match parse_u32(w) {
                Some(item_id) => Some(GmCommand::AddItem { item_id }),
                None => Some(GmCommand::Ignored),
            },
            None => Some(GmCommand::Ignored),
        }
    } else {
        Some(GmCommand::Ignored)
    }
}

/// The characters that `char::is_whitespace` accepts: Unicode `White_Space`.
pub open spec fn is_ws(c: char) -> bool {
    ('\t' <= c && c <= '\r') || c == ' ' || c == '\u{85}' || c == '\u{A0}' || c == '\u{1680}' || ('\u{2000}' <= c && c
        <= '\u{200A}') || c == '\u{2028}' || c == '\u{2029}' || c == '\u{202F}' || c == '\u{205F}' || c == '\u{3000}'
}

/// `char::is_whitespace`.
pub fn is_whitespace(c: char) -> (r: bool)
    ensures
        r == is_ws(c),
{
    ('\t' <= c && c <= '\r') || c == ' ' || c == '\u{85}' || c == '\u{A0}' || c == '\u{1680}' || ('\u{2000}' <= c && c
        <= '\u{200A}') || c == '\u{2028}' || c == '\u{2029}' || c == '\u{202F}' || c == '\u{205F}' || c == '\u{3000}'
}

/// The first place at or after `i` whose character is (when `ws`) or is not (when `!ws`)
/// white space, or the length when there is none.
pub open spec fn scan(s: Seq<char>, i: int, ws: bool) -> int
    decreases s.len() - i,
{
    if i >= s.len() || i < 0 {
        s.len() as int
    } else if is_ws(s[i]) == ws {
        i
    } else {
        scan(s, i + 1, ws)
    }
}

fn scan_exec(s: &str, i: usize, ws: bool) -> (r: usize)
    requires
        i <= s@.len(),
    ensures
        r == scan(s@, i as int, ws),
        i <= r <= s@.len(),
{
    let n = s.unicode_len();
    let mut k = i;
    while k < n
        invariant
            n == s@.len(),
            i <= k <= n,
            scan(s@, i as int, ws) == scan(s@, k as int, ws),
        decreases n - k,
    {
        if is_whitespace(s.get_char(k)) == ws {
            return k;
        }
        k = k + 1;
    }
    k
}

/// Decimal digits with an optional leading `+`, as `u32::from_str` reads them.
pub open spec fn digits_value(s: Seq<char>) -> int
    decreases s.len(),
{
    if s.len() == 0 {
        0
    } else {
        digits_value(s.drop_last()) * 10 + (s.last() as int - '0' as int)
    }
}

pub open spec fn all_digits(s: Seq<char>) -> bool {
    forall|i: int| 0 <= i < s.len() ==> '0' <= #[trigger] s[i] && s[i] <= '9'
}

/// What `u32::from_str` returns for `s`.
pub open spec fn parse_u32_spec(s: Seq<char>) -> Option<u32> {
    let d = if s.len() > 0 && s[0] == '+' { s.drop_first() } else { s };
    if d.len() > 0 && all_digits(d) && digits_value(d) <= u32::MAX {
        Some(digits_value(d) as u32)
    } else {
        None
    }
}

/// `u32::from_str`: decimal digits after an optional `+`, refused on overflow.
pub fn parse_u32(s: &str) -> (r: Option<u32>)
    ensures
        r == parse_u32_spec(s@),
{
    let n = s.unicode_len();
    let mut start: usize = 0;
    if n > 0 && s.get_char(0) == '+' {
        start = 1;
    }
    let ghost d = if s@.len() > 0 && s@[0] == '+' { s@.drop_first() } else { s@ };
    assert(d == s@.subrange(start as int, n as int));
    assert(parse_u32_spec(s@) == (if d.len() > 0 && all_digits(d) && digits_value(d) <= u32::MAX {
        Some(digits_value(d) as u32)
    } else {
        None
    }));
    if start == n {
        return None;
    }
    let mut v: u64 = 0;
    let mut k = start;
    while k < n
        invariant
            n == s@.len(),
            start <= k <= n,
            d == s@.subrange(start as int, n as int),
            parse_u32_spec(s@) == (if d.len() > 0 && all_digits(d) && digits_value(d) <= u32::MAX {
                Some(digits_value(d) as u32)
            } else {
                None
            }),
            all_digits(s@.subrange(start as int, k as int)),
            v == digits_value(s@.subrange(start as int, k as int)),
            v <= u32::MAX,
        decreases n - k,
    {
        let c = s.get_char(k);
        assert(s@.subrange(start as int, k + 1).drop_last() == s@.subrange(start as int, k as int));
        assert(s@.subrange(start as int, k + 1).last() == c);
        if !('0' <= c && c <= '9') {
            assert(d[k - start] == c);
            assert(!all_digits(d));
            assert(parse_u32_spec(s@) is None);
            return None;
        }
        let digit = (c as u32 - '0' as u32) as u64;
        v = v * 10 + digit;
        assert(v == digits_value(s@.subrange(start as int, k + 1)));
        assert forall|i: int| 0 <= i < k + 1 - start implies '0' <= #[trigger] s@.subrange(start as int, k + 1)[i] && s@.subrange(
            start as int,
            k + 1,
        )[i] <= '9' by {
            if i < k - start {
                assert(s@.subrange(start as int, k + 1)[i] == s@.subrange(start as int, k as int)[i]);
            }
        }
        if v > 0xFFFF_FFFF {
            proof {
                assert(d.subrange(0, k + 1 - start) == s@.subrange(start as int, k + 1));
                lemma_digits_grow(d, (k + 1 - start) as int);
                assert(parse_u32_spec(s@) is None);
            }
            return None;
        }
        k = k + 1;
    }
    assert(s@.subrange(start as int, n as int) == d);
    Some(v as u32)
}

proof fn lemma_digits_nonneg(d: Seq<char>)
    requires
        all_digits(d),
    ensures
        digits_value(d) >= 0,
    decreases d.len(),
{
    if d.len() > 0 {
        assert(all_digits(d.drop_last()));
        lemma_digits_nonneg(d.drop_last());
    }
}

/// A longer run of digits never has a smaller value.
proof fn lemma_digits_grow(d: Seq<char>, k: int)
    requires
        0 <= k <= d.len(),
        all_digits(d.subrange(0, k)) || all_digits(d),
    ensures
        all_digits(d) ==> digits_value(d) >= digits_value(d.subrange(0, k)),
    decreases d.len() - k,
{
    if all_digits(d) && k < d.len() {
        assert(all_digits(d.subrange(0, k + 1)));
        assert(all_digits(d.subrange(0, k)));
        lemma_digits_nonneg(d.subrange(0, k));
        lemma_digits_grow(d, k + 1);
        assert(d.subrange(0, k + 1).drop_last() == d.subrange(0, k));
        assert(digits_value(d.subrange(0, k + 1)) >= digits_value(d.subrange(0, k))) by (nonlinear_arith)
            requires
                digits_value(d.subrange(0, k + 1)) == digits_value(d.subrange(0, k)) * 10 + (d[k] as int - '0' as int),
                '0' <= d[k] <= '9',
                digits_value(d.subrange(0, k)) >= 0,
        ;
    }
    if k == d.len() {
        assert(d.subrange(0, k) == d);
    }
}

} // verus!
