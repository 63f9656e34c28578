use vstd::prelude::*;
use vstd::string::StringSliceAdditionalSpecFns;

verus! {

/// `=`, which parts the unit from the range specification.
pub const EQUALS: u8 = 61;

/// `-`, which parts the two bounds.
pub const DASH: u8 = 45;

/// `+`, the sign that may lead a number.
pub const PLUS: u8 = 43;

pub const DIGIT_ZERO: u8 = 48;

pub const DIGIT_NINE: u8 = 57;

/// `i` is the position of the first `c` in `s`.
pub open spec fn is_first(s: Seq<u8>, c: u8, i: int) -> bool {
    0 <= i < s.len() && s[i] == c && forall|j: int| 0 <= j < i ==> s[j] != c
}

/// Position of the first `c` in `s`, or `s.len()` when `c` does not occur.
pub open spec fn first_index(s: Seq<u8>, c: u8) -> int {
    if exists|i: int| is_first(s, c, i) {
        choose|i: int| is_first(s, c, i)
    } else {
        s.len() as int
    }
}

/// The part of `s` before its first `c` (all of `s` when there is none).
pub open spec fn before(s: Seq<u8>, c: u8) -> Seq<u8> {
    s.subrange(0, first_index(s, c))
}

/// The part of `s` after its first `c`, if `c` occurs.
pub open spec fn after(s: Seq<u8>, c: u8) -> Option<Seq<u8>> {
    if first_index(s, c) < s.len() {
        Some(s.subrange(first_index(s, c) + 1, s.len() as int))
    } else {
        None
    }
}

pub open spec fn is_digit(b: u8) -> bool {
    DIGIT_ZERO <= b <= DIGIT_NINE
}

/// Value of a run of decimal digits, most significant first.
pub open spec fn digits_value(s: Seq<u8>) -> nat
    decreases s.len(),
{
    if s.len() == 0 {
        0
    } else {
        digits_value(s.drop_last()) * 10 + (s.last() - DIGIT_ZERO) as nat
    }
}

/// The digits of a number token: the token without one leading `+`.
pub open spec fn unsigned_digits(s: Seq<u8>) -> Seq<u8> {
    if s.len() > 0 && s[0] == PLUS {
        s.drop_first()
    } else {
        s
    }
}

/// A token read as a `u64`: an optional `+` and one or more decimal digits
/// whose value fits in 64 bits; anything else reads as nothing.
pub open spec fn token_value(s: Seq<u8>) -> Option<u64> {
    let d = unsigned_digits(s);
    if d.len() > 0 && (forall|i: int| 0 <= i < d.len() ==> is_digit(#[trigger] d[i]))
        && digits_value(d) <= u64::MAX {
        Some(digits_value(d) as u64)
    } else {
        None
    }
}

/// The range specification of a `Range` header value: what stands between its
/// first and second `=` (empty when it holds no `=`).
pub open spec fn range_param(header: Seq<u8>) -> Seq<u8> {
    match after(header, EQUALS) {
        Some(rest) => before(rest, EQUALS),
        None => Seq::empty(),
    }
}

/// The first bound's token: the range specification up to its first `-`.
pub open spec fn start_token(param: Seq<u8>) -> Seq<u8> {
    before(param, DASH)
}

/// The second bound's token, present when the specification holds a `-`:
/// what stands between its first and second `-`.
pub open spec fn end_token(param: Seq<u8>) -> Option<Seq<u8>> {
    match after(param, DASH) {
        Some(rest) => Some(before(rest, DASH)),
        None => None,
    }
}

/// The inclusive interval that a `Range` header value asks of a resource of
/// `size` bytes: each bound that is missing or unreadable takes its default,
/// `0` for the start and `size - 1` for the end. No check relates the bounds
/// to each other or to `size`.
pub open spec fn requested_range(header: Seq<u8>, size: u64) -> (u64, u64)
    recommends
        size > 0,
{
    let param = range_param(header);
    let start = match token_value(start_token(param)) {
        Some(v) => v,
        None => 0,
    };
    let end = match end_token(param) {
        Some(t) => match token_value(t) {
            Some(v) => v,
            None => (size - 1) as u64,
        },
        None => (size - 1) as u64,
    };
    (start, end)
}

/// Finds the first `c` in `s[from..to]`; returns `to` when there is none.
fn find_byte(s: &[u8], from: usize, to: usize, c: u8) -> (r: usize)
    requires
        from <= to <= s@.len(),
    ensures
        from <= r <= to,
        r == from + first_index(s@.subrange(from as int, to as int), c),
{
    let ghost t = s@.subrange(from as int, to as int);
    let mut i: usize = from;
    while i < to && s[i] != c
        invariant
            from <= i <= to <= s@.len(),
            t == s@.subrange(from as int, to as int),
            forall|j: int| 0 <= j < i - from ==> t[j] != c,
        decreases to - i,
    {
        i = i + 1;
    }
    proof {
        let k = i - from;
        if i < to {
            assert(is_first(t, c, k));
            let m = choose|m: int| is_first(t, c, m);
            assert(m == k) by {
                if m < k {
                    assert(t[m] != c);
                } else if m > k {
                    assert(t[k] != c);
                }
            }
        } else {
            assert forall|m: int| !is_first(t, c, m) by {
                if 0 <= m < t.len() {
                    assert(t[m] != c);
                }
            }
        }
    }
    i
}

/// Reads `s[from..to]` as an unsigned number token.
fn parse_token(s: &[u8], from: usize, to: usize) -> (r: Option<u64>)
    requires
        from <= to <= s@.len(),
    ensures
        r == token_value(s@.subrange(from as int, to as int)),
{
    let ghost t = s@.subrange(from as int, to as int);
    let mut first: usize = from;
    if from < to && s[from] == PLUS {
        first = from + 1;
    }
    let ghost d = s@.subrange(first as int, to as int);
    assert(d =~= unsigned_digits(t));
    if first == to {
        return None;
    }
    let mut value: u64 = 0;
    let mut too_large: bool = false;
    let mut i: usize = first;
    while i < to
        invariant
            first <= i <= to <= s@.len(),
            t == s@.subrange(from as int, to as int),
            d == s@.subrange(first as int, to as int),
            d == unsigned_digits(t),
            forall|j: int| 0 <= j < i - first ==> is_digit(#[trigger] d[j]),
            too_large ==> digits_value(d.subrange(0, i - first)) > u64::MAX,
            !too_large ==> digits_value(d.subrange(0, i - first)) == value,
        decreases to - i,
    {
        let b = s[i];
        if b < DIGIT_ZERO || b > DIGIT_NINE {
            assert(!is_digit(d[i - first]));
            assert(!(forall|j: int| 0 <= j < d.len() ==> is_digit(#[trigger] d[j])));
            return None;
        }
        let dig: u64 = (b - DIGIT_ZERO) as u64;
        let ghost prev = d.subrange(0, i - first);
        let ghost next = d.subrange(0, i - first + 1);
        assert(next.drop_last() =~= prev);
        assert(digits_value(next) == digits_value(prev) * 10 + dig);
        if !too_large {
            match value.checked_mul(10) {
                Some(v10) => match v10.checked_add(dig) {
                    Some(v) => {
                        value = v;
                    },
                    None => {
                        too_large = true;
                    },
                },
                None => {
                    too_large = true;
                },
            }
        }
        i = i + 1;
    }
    assert(d.subrange(0, d.len() as int) =~= d);
    if too_large {
        None
    } else {
        Some(value)
    }
}

/// Reads the interval that a `Range` header value asks for, in the form
/// `bytes=<start>-<end>` where either bound may be left out. A missing or
/// malformed bound falls back to `0` for the start and `file_size - 1` for the
/// end; a suffix form such as `bytes=-500` is not given its standard meaning
/// and keeps the default start. The result is not validated against
/// `file_size`, and its start may exceed its end. The resource must not be
/// empty, for the default end names its last byte.
pub fn parse_range(range_header: &str, file_size: u64) -> (r: (u64, u64))
    requires
        file_size > 0,
    ensures
        r == requested_range(range_header.spec_bytes(), file_size),
{
    let h = range_header.as_bytes();
    let n = h.len();
    let ghost hs = h@;
    let eq = find_byte(h, 0, n, EQUALS);
    assert(hs.subrange(0, n as int) =~= hs);
    let (pf, pt) = if eq < n {
        let e2 = find_byte(h, eq + 1, n, EQUALS);
        assert(after(hs, EQUALS) == Some(hs.subrange(eq + 1, n as int)));
        assert(hs.subrange(eq + 1, n as int).subrange(0, e2 - eq - 1) =~= hs.subrange(
            eq + 1,
            e2 as int,
        ));
        (eq + 1, e2)
    } else {
        assert(hs.subrange(n as int, n as int) =~= Seq::<u8>::empty());
        (n, n)
    };
    let ghost param = hs.subrange(pf as int, pt as int);
    assert(param == range_param(hs));
    let dash = find_byte(h, pf, pt, DASH);
    assert(param.subrange(0, dash - pf) =~= hs.subrange(pf as int, dash as int));
    let start = match parse_token(h, pf, dash) {
        Some(v) => v,
        None => 0,
    };
    let mut end = file_size - 1;
    if dash < pt {
        let dash2 = find_byte(h, dash + 1, pt, DASH);
        let ghost rest = hs.subrange(dash + 1, pt as int);
        assert(param.subrange(dash - pf + 1, param.len() as int) =~= rest);
        assert(after(param, DASH) == Some(rest));
        assert(rest.subrange(0, dash2 - dash - 1) =~= hs.subrange(dash + 1, dash2 as int));
        assert(end_token(param) == Some(hs.subrange(dash + 1, dash2 as int)));
        if let Some(v) = parse_token(h, dash + 1, dash2) {
            end = v;
        }
    } else {
        assert(end_token(param).is_none());
    }
    (start, end)
}

} // verus!
