//! Reading back the bytes that a scope is signed as.
//!
//! A scope is signed as compact JSON with its fields in one order, see
//! [`Scope::to_json`]. Bytes of just that form are read here; JSON of any other
//! form is left to a parser.

use vstd::prelude::*;
use vstd::string::*;
use vstd::utf8::*;
use crate::chars::{decimal, digit, signed_decimal};
use crate::lease::Scope;

verus! {

/// The scope, if any, that is signed as `data`.
pub open spec fn written(data: Seq<u8>) -> Option<Scope> {
    if exists|s: Scope| data == #[trigger] s.payload() {
        Some(choose|s: Scope| data == #[trigger] s.payload())
    } else {
        None
    }
}

/// A decimal digit.
spec fn is_digit(b: u8) -> bool {
    48 <= b <= 57
}

/// The number that a run of digits stands for.
spec fn number(ds: Seq<u8>) -> nat
    decreases ds.len(),
{
    if ds.len() == 0 {
        0
    } else {
        number(ds.drop_last()) * 10 + (ds.last() - 48) as nat
    }
}

/// The bytes of `n` in decimal.
spec fn digits(n: nat) -> Seq<u8> {
    decimal(n).map_values(|c: char| c as u8)
}

/// `n` stands in `data` at `at` in decimal, and what follows it is no digit.
spec fn stands_at(data: Seq<u8>, at: int, n: nat) -> bool {
    let end = at + digits(n).len();
    &&& 0 <= at
    &&& end < data.len()
    &&& data.subrange(at, end) == digits(n)
    &&& !is_digit(data[end])
}

proof fn lemma_digits(n: nat)
    ensures
        digits(n).len() >= 1,
        forall|i: int| 0 <= i < digits(n).len() ==> is_digit(#[trigger] digits(n)[i]),
        is_ascii_chars(decimal(n)),
        number(digits(n)) == n,
    decreases n,
{
    let d = digit(n % 10);
    assert(d as u8 == n % 10 + 48);
    if n < 10 {
        assert(digits(n) =~= seq![d as u8]);
        assert(digits(n).drop_last() =~= seq![]);
        assert(number(seq![]) == 0);
    } else {
        lemma_digits(n / 10);
        assert(digits(n) =~= digits(n / 10).push(d as u8));
        assert(digits(n).drop_last() =~= digits(n / 10));
    }
}

proof fn lemma_prefix_is_no_larger(ds: Seq<u8>, k: int)
    requires
        0 <= k <= ds.len(),
    ensures
        number(ds.take(k)) <= number(ds),
    decreases ds.len(),
{
    if k == ds.len() {
        assert(ds.take(k) =~= ds);
    } else {
        lemma_prefix_is_no_larger(ds.drop_last(), k);
        assert(ds.take(k) =~= ds.drop_last().take(k));
    }
}

/// A run of digits from `at` to `end` is where `n` stands when nothing but
/// digits is in it and no digit follows it.
proof fn lemma_stands(data: Seq<u8>, at: int, end: int, n: nat)
    requires
        stands_at(data, at, n),
        at <= end <= data.len(),
        forall|j: int| at <= j < end ==> is_digit(#[trigger] data[j]),
    ensures
        end <= at + digits(n).len(),
        number(data.subrange(at, end)) <= n,
        end == data.len() || !is_digit(data[end]) ==> end == at + digits(n).len(),
        end == at + digits(n).len() ==> number(data.subrange(at, end)) == n,
{
    lemma_digits(n);
    let k = digits(n).len() as int;
    if end > at + k {
        assert(is_digit(data[at + k]));
    }
    lemma_prefix_is_no_larger(digits(n), end - at);
    assert(data.subrange(at, end) =~= digits(n).take(end - at));
    if end < at + k {
        assert(data[end] == digits(n)[end - at]);
    } else {
        assert(digits(n).take(k) =~= digits(n));
    }
}

proof fn lemma_stands_once(data: Seq<u8>, at: int, n: nat, m: nat)
    requires
        stands_at(data, at, n),
        stands_at(data, at, m),
    ensures
        n == m,
{
    let end = at + digits(n).len();
    lemma_digits(n);
    assert forall|j: int| at <= j < end implies is_digit(#[trigger] data[j]) by {
        assert(data[j] == digits(n)[j - at]);
    }
    lemma_stands(data, at, end, n);
    lemma_stands(data, at, end, m);
}

/// The number whose digits start at `at`, and where they end. A number too
/// large for the machine is passed over.
fn number_at(data: &[u8], at: usize) -> (r: Option<(u64, usize)>)
    requires
        at <= data@.len(),
    ensures
        r matches Some((_, end)) ==> at <= end <= data@.len(),
        forall|n: nat|
            n <= u64::MAX && #[trigger] stands_at(data@, at as int, n) ==> r == Some(
                (n as u64, (at + digits(n).len()) as usize),
            ),
{
    let mut v: u64 = 0;
    let mut i: usize = at;
    assert(data@.subrange(at as int, at as int) =~= seq![]);
    while i < data.len() && 48 <= data[i] && data[i] <= 57
        invariant
            at <= i <= data@.len(),
            v == number(data@.subrange(at as int, i as int)),
            forall|j: int| at <= j < i ==> is_digit(#[trigger] data@[j]),
        decreases data@.len() - i,
    {
        let d: u64 = (data[i] - 48) as u64;
        let ghost more = data@.subrange(at as int, i + 1);
        assert(more.drop_last() =~= data@.subrange(at as int, i as int));
        assert(number(more) == v * 10 + d);
        if v > (u64::MAX - d) / 10 {
            proof {
                assert forall|n: nat| n <= u64::MAX implies !#[trigger] stands_at(
                    data@,
                    at as int,
                    n,
                ) by {
                    if stands_at(data@, at as int, n) {
                        lemma_stands(data@, at as int, i + 1, n);
                    }
                }
            }
            return None;
        }
        v = v * 10 + d;
        i += 1;
    }
    proof {
        assert forall|n: nat| n <= u64::MAX && #[trigger] stands_at(data@, at as int, n) implies v
            == n && i == at + digits(n).len() by {
            lemma_stands(data@, at as int, i as int, n);
        }
    }
    Some((v, i))
}

/// The magnitude of a handle.
spec fn magnitude(hwnd: isize) -> nat {
    if hwnd < 0 {
        (-hwnd) as nat
    } else {
        hwnd as nat
    }
}

/// Where the digits of the handle start.
spec fn first_at(s: Scope) -> int {
    if s.hwnd < 0 {
        6
    } else {
        5
    }
}

/// Where the digits of the generation start.
spec fn second_at(s: Scope) -> int {
    first_at(s) + digits(magnitude(s.hwnd)).len() + 5
}

/// Where the digits of the expiry start.
spec fn third_at(s: Scope) -> int {
    second_at(s) + digits(s.generation as nat).len() + 5
}

/// The three numbers of `s` stand in `data` where they belong.
spec fn laid_out(data: Seq<u8>, s: Scope) -> bool {
    &&& data.len() > 5
    &&& data[5] == 45 <==> s.hwnd < 0
    &&& stands_at(data, first_at(s), magnitude(s.hwnd))
    &&& stands_at(data, second_at(s), s.generation as nat)
    &&& stands_at(data, third_at(s), s.exp as nat)
}

proof fn lemma_part(text: Seq<char>, head: Seq<char>, n: nat, tail: Seq<char>)
    requires
        text == head + decimal(n) + tail,
        is_ascii_chars(text),
        tail.len() > 0,
        tail[0] == ',' || tail[0] == '}',
    ensures
        stands_at(encode_utf8(text), head.len() as int, n),
{
    is_ascii_chars_encode_utf8(text);
    let data = encode_utf8(text);
    let at = head.len() as int;
    let end = at + digits(n).len();
    assert forall|i: int| 0 <= i < digits(n).len() implies data[at + i] == #[trigger] digits(
        n,
    )[i] by {
        assert(text[at + i] == decimal(n)[i]);
    }
    assert(data.subrange(at, end) =~= digits(n));
    assert(text[end] == tail[0]);
}

proof fn lemma_laid_out(s: Scope)
    ensures
        laid_out(s.payload(), s),
{
    reveal_strlit("{\"h\":");
    reveal_strlit(",\"g\":");
    reveal_strlit(",\"e\":");
    reveal_strlit("}");
    let text = s.json();
    let h = signed_decimal(s.hwnd as int);
    let m = decimal(magnitude(s.hwnd));
    let g = decimal(s.generation as nat);
    let e = decimal(s.exp as nat);
    lemma_digits(magnitude(s.hwnd));
    lemma_digits(s.generation as nat);
    lemma_digits(s.exp as nat);
    assert(is_ascii_chars(h));
    assert(is_ascii_chars(text));
    is_ascii_chars_encode_utf8(text);
    let last = "}"@;
    let after_g = ",\"e\":"@ + e + last;
    let after_h = ",\"g\":"@ + g + after_g;
    let sign = if s.hwnd < 0 {
        seq!['-']
    } else {
        seq![]
    };
    let to_h = "{\"h\":"@ + sign;
    assert(text =~= to_h + m + after_h);
    lemma_part(text, to_h, magnitude(s.hwnd), after_h);
    let to_g = to_h + m + ",\"g\":"@;
    assert(text =~= to_g + g + after_g);
    lemma_part(text, to_g, s.generation as nat, after_g);
    let to_e = to_g + g + ",\"e\":"@;
    assert(text =~= to_e + e + last);
    lemma_part(text, to_e, s.exp as nat, last);
    if s.hwnd < 0 {
        assert(text[5] == '-');
    } else {
        assert(text[5] == m[0]);
        assert(is_digit(digits(magnitude(s.hwnd))[0]));
    }
}

/// The bytes that a scope is signed as are read as that scope and no other.
pub proof fn lemma_written(s: Scope)
    ensures
        written(s.payload()) == Some(s),
{
    let data = s.payload();
    let t = choose|t: Scope| data == #[trigger] t.payload();
    assert(data == s.payload());
    lemma_laid_out(s);
    lemma_laid_out(t);
    lemma_stands_once(data, first_at(s), magnitude(s.hwnd), magnitude(t.hwnd));
    lemma_stands_once(data, second_at(s), s.generation as nat, t.generation as nat);
    lemma_stands_once(data, third_at(s), s.exp as nat, t.exp as nat);
    assert(s == t);
}

fn same_bytes(a: &[u8], b: &[u8]) -> (r: bool)
    ensures
        r == (a@ == b@),
{
    if a.len() != b.len() {
        return false;
    }
    for i in 0..a.len()
        invariant
            a@.len() == b@.len(),
            forall|j: int| 0 <= j < i ==> a@[j] == b@[j],
    {
        if a[i] != b[i] {
            return false;
        }
    }
    assert(a@ =~= b@);
    true
}

/// The scope that is signed as `data`, if there is one.
pub fn read_written(data: &[u8]) -> (r: Option<Scope>)
    ensures
        r == written(data@),
{
    proof {
        assert forall|s: Scope| data@ == #[trigger] s.payload() implies laid_out(data@, s) by {
            lemma_laid_out(s);
        }
    }
    if data.len() <= 5 {
        return None;
    }
    let negative: bool = data[5] == 45;
    let (h, i) = match number_at(data, if negative {
        6
    } else {
        5
    }) {
        Some(found) => found,
        None => {
            return None;
        },
    };
    if data.len() - i < 5 {
        return None;
    }
    let (g, j) = match number_at(data, i + 5) {
        Some(found) => found,
        None => {
            return None;
        },
    };
    if data.len() - j < 5 {
        return None;
    }
    let e: u64 = match number_at(data, j + 5) {
        Some((e, _)) => e,
        None => {
            return None;
        },
    };
    let hwnd: i128 = if negative {
        -(h as i128)
    } else {
        h as i128
    };
    if hwnd < isize::MIN as i128 || hwnd > isize::MAX as i128 {
        return None;
    }
    let scope = Scope { hwnd: hwnd as isize, generation: g, exp: e };
    let json = scope.to_json();
    if same_bytes(json.as_str().as_bytes(), data) {
        proof {
            lemma_written(scope);
        }
        Some(scope)
    } else {
        proof {
            assert forall|s: Scope| data@ != #[trigger] s.payload() by {
                if data@ == s.payload() {
                    assert(laid_out(data@, s));
                    assert(s == scope);
                }
            }
        }
        None
    }
}

} // verus!
