//! Verified text helpers: equality and prefix tests over `&str`, splitting
//! on a separator character, decimal parsing and rendering, and ASCII
//! upper-casing, each with an exact specification over `Seq<char>` views.

use vstd::prelude::*;

verus! {

/// The views of a sequence of owned strings.
pub open spec fn views_of(v: Seq<String>) -> Seq<Seq<char>> {
    v.map_values(|x: String| x@)
}

/// Helper for [`split_spec`]: splits `s` on `sep` with `cur` holding the
/// characters of the piece under construction.
pub open spec fn split_rec(s: Seq<char>, sep: char, cur: Seq<char>) -> Seq<Seq<char>>
    decreases s.len(),
{
    if s.len() == 0 {
        seq![cur]
    } else if s[0] == sep {
        seq![cur] + split_rec(s.drop_first(), sep, Seq::empty())
    } else {
        split_rec(s.drop_first(), sep, cur.push(s[0]))
    }
}

/// The pieces of `s` delimited by `sep`: one piece more than there are
/// separators, in order, each piece free of `sep`.
pub open spec fn split_spec(s: Seq<char>, sep: char) -> Seq<Seq<char>> {
    split_rec(s, sep, Seq::empty())
}

/// Character-for-character equality of two string slices.
pub fn str_eq(a: &str, b: &str) -> (r: bool)
    ensures
        r == (a@ == b@),
{
    let an = a.unicode_len();
    let bn = b.unicode_len();
    if an != bn {
        return false;
    }
    let mut i: usize = 0;
    while i < an
        invariant
            an == a@.len(),
            bn == b@.len(),
            an == bn,
            i <= an,
            forall|j: int| 0 <= j < i ==> a@[j] == b@[j],
        decreases an - i,
    {
        if a.get_char(i) != b.get_char(i) {
            return false;
        }
        i = i + 1;
    }
    proof {
        assert(a@ =~= b@);
    }
    true
}

/// Whether `s` begins with `prefix`.
pub fn starts_with(s: &str, prefix: &str) -> (r: bool)
    ensures
        r == prefix@.is_prefix_of(s@),
{
    let sn = s.unicode_len();
    let pn = prefix.unicode_len();
    if pn > sn {
        assert(!prefix@.is_prefix_of(s@));
        return false;
    }
    let mut i: usize = 0;
    while i < pn
        invariant
            sn == s@.len(),
            pn == prefix@.len(),
            pn <= sn,
            i <= pn,
            forall|j: int| 0 <= j < i ==> s@[j] == prefix@[j],
        decreases pn - i,
    {
        if s.get_char(i) != prefix.get_char(i) {
            assert(s@.subrange(0, pn as int)[i as int] != prefix@[i as int]);
            return false;
        }
        i = i + 1;
    }
    proof {
        assert(s@.subrange(0, pn as int) =~= prefix@);
    }
    true
}

/// Whether `s` contains the character `c`.
pub fn contains_char(s: &str, c: char) -> (r: bool)
    ensures
        r == s@.contains(c),
{
    let n = s.unicode_len();
    let mut i: usize = 0;
    while i < n
        invariant
            n == s@.len(),
            i <= n,
            forall|j: int| 0 <= j < i ==> s@[j] != c,
        decreases n - i,
    {
        if s.get_char(i) == c {
            return true;
        }
        i = i + 1;
    }
    false
}

/// Splits `s` at every occurrence of `sep`: one piece more than there are
/// separators, in order, each piece free of `sep`.
pub fn split_all(s: &str, sep: char) -> (r: Vec<String>)
    ensures
        views_of(r@) == split_spec(s@, sep),
        r@.len() >= 1,
{
    let n = s.unicode_len();
    let mut out: Vec<String> = Vec::new();
    let mut start: usize = 0;
    let mut i: usize = 0;
    proof {
        assert(s@.skip(0) =~= s@);
        assert(s@.subrange(0, 0) =~= Seq::<char>::empty());
    }
    while i < n
        invariant
            n == s@.len(),
            start <= i <= n,
            views_of(out@) + split_rec(s@.skip(i as int), sep, s@.subrange(start as int, i as int))
                == split_spec(s@, sep),
        decreases n - i,
    {
        let ghost pre = s@.skip(i as int);
        let ghost cur = s@.subrange(start as int, i as int);
        proof {
            assert(pre.len() > 0 && pre[0] == s@[i as int]);
            assert(pre.drop_first() =~= s@.skip(i + 1));
        }
        let c = s.get_char(i);
        if c == sep {
            let ghost old_out = out@;
            let piece = String::from_str(s.substring_char(start, i));
            out.push(piece);
            proof {
                assert(piece@ == cur);
                assert(split_rec(pre, sep, cur) == seq![cur] + split_rec(
                    s@.skip(i + 1),
                    sep,
                    Seq::empty(),
                ));
                assert(views_of(out@) =~= views_of(old_out).push(piece@));
                assert(views_of(out@) + split_rec(s@.skip(i + 1), sep, Seq::empty())
                    =~= views_of(old_out) + split_rec(pre, sep, cur));
                assert(s@.subrange(i + 1, i + 1) =~= Seq::<char>::empty());
            }
            start = i + 1;
        } else {
            proof {
                assert(split_rec(pre, sep, cur) == split_rec(
                    s@.skip(i + 1),
                    sep,
                    cur.push(s@[i as int]),
                ));
                assert(cur.push(s@[i as int]) =~= s@.subrange(start as int, i + 1));
            }
        }
        i = i + 1;
    }
    let ghost old_out = out@;
    let piece = String::from_str(s.substring_char(start, n));
    out.push(piece);
    proof {
        assert(s@.skip(n as int).len() == 0);
        assert(split_rec(s@.skip(n as int), sep, s@.subrange(start as int, n as int)) == seq![
            s@.subrange(start as int, n as int),
        ]);
        assert(views_of(out@) =~= views_of(old_out).push(piece@));
        assert(views_of(out@) =~= split_spec(s@, sep));
    }
    out
}

/// The pieces of `s` delimited by `sep`, each trimmed, blank pieces
/// dropped.
pub open spec fn trimmed_items(s: Seq<char>, sep: char) -> Seq<Seq<char>> {
    split_spec(s, sep).map_values(|c: Seq<char>| trim_of(c)).filter(|t: Seq<char>| t.len() > 0)
}

/// Splits `s` on `sep`, trims every piece, and drops the blank ones.
pub fn split_trimmed(s: &str, sep: char) -> (r: Vec<String>)
    ensures
        views_of(r@) == trimmed_items(s@, sep),
{
    let parts = split_all(s, sep);
    let ghost pv = split_spec(s@, sep);
    let mut out: Vec<String> = Vec::new();
    let mut i: usize = 0;
    proof {
        reveal(Seq::filter);
        assert(pv.take(0) =~= Seq::<Seq<char>>::empty());
        assert(pv.take(0).map_values(|c: Seq<char>| trim_of(c)) =~= Seq::<Seq<char>>::empty());
    }
    while i < parts.len()
        invariant
            pv == split_spec(s@, sep),
            views_of(parts@) == pv,
            parts@.len() == pv.len(),
            i <= pv.len(),
            views_of(out@) == pv.take(i as int).map_values(|c: Seq<char>| trim_of(c)).filter(
                |t: Seq<char>| t.len() > 0,
            ),
        decreases pv.len() - i,
    {
        let ghost mapped = pv.take(i as int).map_values(|c: Seq<char>| trim_of(c));
        let piece = trim(parts[i].as_str());
        proof {
            reveal(Seq::filter);
            assert(parts@[i as int]@ == pv[i as int]);
            assert(pv.take(i + 1).map_values(|c: Seq<char>| trim_of(c)) =~= mapped.push(
                trim_of(pv[i as int]),
            ));
            assert(mapped.push(piece@).drop_last() =~= mapped);
        }
        if piece.unicode_len() != 0 {
            let ghost old_out = out@;
            out.push(piece);
            proof {
                assert(views_of(out@) =~= views_of(old_out).push(piece@));
            }
        }
        i = i + 1;
    }
    proof {
        assert(pv.take(pv.len() as int) =~= pv);
    }
    out
}

/// Splits `s` at the first occurrence of `sep`, if any.
pub fn split_once_at(s: &str, sep: char) -> (r: Option<(String, String)>)
    ensures
        match r {
            Some((head, tail)) => {
                &&& !head@.contains(sep)
                &&& s@ == head@ + seq![sep] + tail@
            },
            None => !s@.contains(sep),
        },
{
    let n = s.unicode_len();
    let mut i: usize = 0;
    while i < n
        invariant
            n == s@.len(),
            i <= n,
            forall|j: int| 0 <= j < i ==> s@[j] != sep,
        decreases n - i,
    {
        if s.get_char(i) == sep {
            let head = String::from_str(s.substring_char(0, i));
            let tail = String::from_str(s.substring_char(i + 1, n));
            proof {
                assert(head@ + seq![sep] + tail@ =~= s@);
            }
            return Some((head, tail));
        }
        i = i + 1;
    }
    None
}

/// Whether `c` is a decimal digit.
pub open spec fn is_dec_digit(c: char) -> bool {
    48 <= c as u32 <= 57
}

/// The numeric value of a string of decimal digits, most significant first.
pub open spec fn dec_val(s: Seq<char>) -> int
    decreases s.len(),
{
    if s.len() == 0 {
        0
    } else {
        dec_val(s.drop_last()) * 10 + (s.last() as u32 - 48)
    }
}

/// The digit string `s` with optional leading `'+'` removed, as accepted by
/// decimal parsing.
pub open spec fn dec_body(s: Seq<char>) -> Seq<char> {
    if s.len() > 0 && s[0] == '+' {
        s.drop_first()
    } else {
        s
    }
}

/// Whether `s` is a well-formed decimal numeral (an optional `'+'`, then one
/// or more digits).
pub open spec fn is_dec_str(s: Seq<char>) -> bool {
    &&& dec_body(s).len() > 0
    &&& forall|j: int| 0 <= j < dec_body(s).len() ==> is_dec_digit(#[trigger] dec_body(s)[j])
}

proof fn lemma_dec_val_nonneg(s: Seq<char>)
    requires
        forall|j: int| 0 <= j < s.len() ==> is_dec_digit(#[trigger] s[j]),
    ensures
        dec_val(s) >= 0,
    decreases s.len(),
{
    if s.len() > 0 {
        lemma_dec_val_nonneg(s.drop_last());
    }
}

proof fn lemma_dec_val_take_step(s: Seq<char>, i: int)
    requires
        0 <= i < s.len(),
    ensures
        dec_val(s.take(i + 1)) == dec_val(s.take(i)) * 10 + (s[i] as u32 - 48),
{
    assert(s.take(i + 1).drop_last() =~= s.take(i));
    assert(s.take(i + 1).last() == s[i]);
}

proof fn lemma_dec_val_grows(s: Seq<char>, i: int)
    requires
        0 <= i <= s.len(),
        forall|j: int| 0 <= j < s.len() ==> is_dec_digit(#[trigger] s[j]),
    ensures
        dec_val(s) >= dec_val(s.take(i)),
    decreases s.len() - i,
{
    if i < s.len() {
        lemma_dec_val_take_step(s, i);
        lemma_dec_val_nonneg(s.take(i));
        assert(dec_val(s.take(i + 1)) >= dec_val(s.take(i))) by (nonlinear_arith)
            requires
                dec_val(s.take(i + 1)) == dec_val(s.take(i)) * 10 + (s[i] as u32 - 48),
                dec_val(s.take(i)) >= 0,
                is_dec_digit(s[i]),
        ;
        lemma_dec_val_grows(s, i + 1);
    } else {
        assert(s.take(i) =~= s);
    }
}

/// Parses a decimal numeral exactly as `str::parse` does for unsigned
/// integers: an optional leading `'+'`, then one or more digits, rejecting
/// values above `u64::MAX`.
pub fn parse_u64_dec(s: &str) -> (r: Option<u64>)
    ensures
        match r {
            Some(v) => is_dec_str(s@) && v == dec_val(dec_body(s@)),
            None => !is_dec_str(s@) || dec_val(dec_body(s@)) > u64::MAX,
        },
{
    let n = s.unicode_len();
    let mut i: usize = 0;
    if n > 0 && s.get_char(0) == '+' {
        i = 1;
    }
    if i == n {
        // Empty digit body.
        return None;
    }
    let ghost body = dec_body(s@);
    let ghost off = i as int;
    assert(body =~= s@.subrange(off, n as int));
    let mut acc: u64 = 0;
    while i < n
        invariant
            n == s@.len(),
            off <= i <= n,
            0 < n,
            off == (if s@[0] == '+' && s@.len() > 0 { 1int } else { 0int }),
            body == s@.subrange(off, n as int),
            forall|j: int| 0 <= j < i - off ==> is_dec_digit(#[trigger] body[j]),
            acc == dec_val(body.take(i - off)),
        decreases n - i,
    {
        let c = s.get_char(i);
        let cv = c as u32;
        if cv < 48 || cv > 57 {
            assert(!is_dec_str(s@)) by {
                assert(body[i - off] == s@[i as int]);
            }
            return None;
        }
        let d: u64 = (cv - 48) as u64;
        proof {
            lemma_dec_val_take_step(body, i - off);
            lemma_dec_val_nonneg(body.take(i - off));
        }
        if acc > (u64::MAX - d) / 10 {
            // The value exceeds u64::MAX; later digits only increase it.
            proof {
                assert(body[i - off] == s@[i as int]);
                assert(dec_val(body.take(i - off + 1)) > u64::MAX) by (nonlinear_arith)
                    requires
                        acc > (u64::MAX - d) / 10,
                        d <= 9,
                        acc == dec_val(body.take(i - off)),
                        dec_val(body.take(i - off + 1)) == dec_val(body.take(i - off)) * 10 + d,
                ;
                assert(dec_body(s@) =~= body);
                if forall|j: int| 0 <= j < body.len() ==> is_dec_digit(#[trigger] body[j]) {
                    lemma_dec_val_grows(body, i - off + 1);
                    assert(dec_val(dec_body(s@)) > u64::MAX);
                } else {
                    assert(!is_dec_str(s@));
                }
            }
            return None;
        }
        assert(acc * 10 + d <= u64::MAX) by (nonlinear_arith)
            requires
                acc <= (u64::MAX - d) / 10,
                d <= 9,
        ;
        acc = acc * 10 + d;
        i = i + 1;
        assert(body[i - 1 - off] == s@[i - 1 as int]);
    }
    proof {
        assert(body.take(n - off) =~= body);
    }
    Some(acc)
}

/// The decimal digit character for `d` (which must be in 0..10).
pub open spec fn dec_digit_char(d: int) -> char {
    if d == 0 {
        '0'
    } else if d == 1 {
        '1'
    } else if d == 2 {
        '2'
    } else if d == 3 {
        '3'
    } else if d == 4 {
        '4'
    } else if d == 5 {
        '5'
    } else if d == 6 {
        '6'
    } else if d == 7 {
        '7'
    } else if d == 8 {
        '8'
    } else {
        '9'
    }
}

/// The decimal rendering of `n`, most significant digit first, no sign and
/// no leading zeros (except for `n == 0`).
pub open spec fn dec_str_of(n: int) -> Seq<char>
    decreases n,
{
    if n < 10 {
        seq![dec_digit_char(n)]
    } else {
        dec_str_of(n / 10).push(dec_digit_char(n % 10))
    }
}

fn dec_digit_literal(d: u64) -> (r: &'static str)
    requires
        d < 10,
    ensures
        r@ == seq![dec_digit_char(d as int)],
{
    proof {
        reveal_strlit("0");
        reveal_strlit("1");
        reveal_strlit("2");
        reveal_strlit("3");
        reveal_strlit("4");
        reveal_strlit("5");
        reveal_strlit("6");
        reveal_strlit("7");
        reveal_strlit("8");
        reveal_strlit("9");
    }
    let r = if d == 0 {
        "0"
    } else if d == 1 {
        "1"
    } else if d == 2 {
        "2"
    } else if d == 3 {
        "3"
    } else if d == 4 {
        "4"
    } else if d == 5 {
        "5"
    } else if d == 6 {
        "6"
    } else if d == 7 {
        "7"
    } else if d == 8 {
        "8"
    } else {
        "9"
    };
    proof {
        assert(r@ =~= seq![dec_digit_char(d as int)]);
    }
    r
}

/// Renders `n` in decimal.
pub fn u64_to_dec(n: u64) -> (r: String)
    ensures
        r@ == dec_str_of(n as int),
    decreases n,
{
    if n < 10 {
        String::from_str(dec_digit_literal(n))
    } else {
        let mut prefix = u64_to_dec(n / 10);
        prefix.append(dec_digit_literal(n % 10));
        proof {
            assert(prefix@ =~= dec_str_of(n as int));
        }
        prefix
    }
}

/// What `str::trim` removes: the characters of `s` with leading and
/// trailing Unicode whitespace stripped. Stating the Unicode whitespace
/// table here would restate the standard library, so the result only
/// carries a name.
pub uninterp spec fn trim_of(s: Seq<char>) -> Seq<char>;

/// Relies on `str::trim`: the input with leading and trailing whitespace
/// removed, a function of the characters alone.
#[verifier::external_body]
pub fn trim(s: &str) -> (r: String)
    ensures
        r@ == trim_of(s@),
{
    s.trim().to_owned()
}

/// ASCII upper-casing of a single character; other characters are unchanged.
pub open spec fn upper_char(c: char) -> char {
    if c == 'a' {
        'A'
    } else if c == 'b' {
        'B'
    } else if c == 'c' {
        'C'
    } else if c == 'd' {
        'D'
    } else if c == 'e' {
        'E'
    } else if c == 'f' {
        'F'
    } else if c == 'g' {
        'G'
    } else if c == 'h' {
        'H'
    } else if c == 'i' {
        'I'
    } else if c == 'j' {
        'J'
    } else if c == 'k' {
        'K'
    } else if c == 'l' {
        'L'
    } else if c == 'm' {
        'M'
    } else if c == 'n' {
        'N'
    } else if c == 'o' {
        'O'
    } else if c == 'p' {
        'P'
    } else if c == 'q' {
        'Q'
    } else if c == 'r' {
        'R'
    } else if c == 's' {
        'S'
    } else if c == 't' {
        'T'
    } else if c == 'u' {
        'U'
    } else if c == 'v' {
        'V'
    } else if c == 'w' {
        'W'
    } else if c == 'x' {
        'X'
    } else if c == 'y' {
        'Y'
    } else if c == 'z' {
        'Z'
    } else {
        c
    }
}

/// ASCII upper-casing of a character sequence.
pub open spec fn upper_of(s: Seq<char>) -> Seq<char> {
    s.map_values(|c: char| upper_char(c))
}

fn char_upper(c: char) -> (r: char)
    ensures
        r == upper_char(c),
{
    match c {
        'a' => 'A',
        'b' => 'B',
        'c' => 'C',
        'd' => 'D',
        'e' => 'E',
        'f' => 'F',
        'g' => 'G',
        'h' => 'H',
        'i' => 'I',
        'j' => 'J',
        'k' => 'K',
        'l' => 'L',
        'm' => 'M',
        'n' => 'N',
        'o' => 'O',
        'p' => 'P',
        'q' => 'Q',
        'r' => 'R',
        's' => 'S',
        't' => 'T',
        'u' => 'U',
        'v' => 'V',
        'w' => 'W',
        'x' => 'X',
        'y' => 'Y',
        'z' => 'Z',
        _ => c,
    }
}

/// Whether ASCII-upper-casing `s` yields exactly `t`.
pub fn upper_eq(s: &str, t: &str) -> (r: bool)
    ensures
        r == (upper_of(s@) == t@),
{
    let sn = s.unicode_len();
    let tn = t.unicode_len();
    if sn != tn {
        assert(upper_of(s@).len() == s@.len());
        return false;
    }
    let mut i: usize = 0;
    while i < sn
        invariant
            sn == s@.len(),
            tn == t@.len(),
            sn == tn,
            i <= sn,
            forall|j: int| 0 <= j < i ==> upper_char(s@[j]) == t@[j],
        decreases sn - i,
    {
        if char_upper(s.get_char(i)) != t.get_char(i) {
            assert(upper_of(s@)[i as int] != t@[i as int]);
            return false;
        }
        i = i + 1;
    }
    proof {
        assert(upper_of(s@) =~= t@);
    }
    true
}

} // verus!
