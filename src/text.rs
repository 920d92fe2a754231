use vstd::prelude::*;
use vstd::utf8::encode_utf8;

verus! {

/// Whether `c` counts as a letter or a digit, as `char::is_alphanumeric` decides.
pub uninterp spec fn alnum(c: char) -> bool;

/// Relies on `char::is_alphanumeric`: the answer depends on the character alone.
#[verifier::external_body]
pub(crate) fn is_alnum(c: char) -> (r: bool)
    ensures
        r == alnum(c),
{
    c.is_alphanumeric()
}

/// Relies on `String::push`: the character is appended at the end.
#[verifier::external_body]
pub(crate) fn push_char(s: &mut String, c: char)
    ensures
        final(s)@ == old(s)@.push(c),
{
    s.push(c)
}

/// The character that writes the digit `d` (lower-case letters past nine).
pub open spec fn digit_char(d: nat) -> char {
    if d == 0 { '0' }
    else if d == 1 { '1' }
    else if d == 2 { '2' }
    else if d == 3 { '3' }
    else if d == 4 { '4' }
    else if d == 5 { '5' }
    else if d == 6 { '6' }
    else if d == 7 { '7' }
    else if d == 8 { '8' }
    else if d == 9 { '9' }
    else if d == 10 { 'a' }
    else if d == 11 { 'b' }
    else if d == 12 { 'c' }
    else if d == 13 { 'd' }
    else if d == 14 { 'e' }
    else { 'f' }
}

/// The digits of `n` in base `radix`, most significant first, without leading zeros.
pub open spec fn digits(n: nat, radix: nat) -> Seq<char>
    decreases n
    via digits_decreases
{
    if radix < 2 || n < radix {
        seq![digit_char(n)]
    } else {
        digits(n / radix, radix).push(digit_char(n % radix))
    }
}

#[via_fn]
proof fn digits_decreases(n: nat, radix: nat) {
    if !(radix < 2 || n < radix) {
        assert(n / radix < n) by (nonlinear_arith)
            requires
                radix >= 2,
                n >= radix,
        ;
    }
}

/// Decimal text of a natural number.
pub open spec fn dec(n: nat) -> Seq<char> {
    digits(n, 10)
}

/// Decimal text of an integer, with a leading minus sign when it is negative.
pub open spec fn signed_dec(n: int) -> Seq<char> {
    if n < 0 {
        seq!['-'] + dec((-n) as nat)
    } else {
        dec(n as nat)
    }
}

fn digit_of(d: u64) -> (c: char)
    requires
        d < 16,
    ensures
        c == digit_char(d as nat),
{
    if d == 0 { '0' }
    else if d == 1 { '1' }
    else if d == 2 { '2' }
    else if d == 3 { '3' }
    else if d == 4 { '4' }
    else if d == 5 { '5' }
    else if d == 6 { '6' }
    else if d == 7 { '7' }
    else if d == 8 { '8' }
    else if d == 9 { '9' }
    else if d == 10 { 'a' }
    else if d == 11 { 'b' }
    else if d == 12 { 'c' }
    else if d == 13 { 'd' }
    else if d == 14 { 'e' }
    else { 'f' }
}

/// Writes `n` in base `radix`.
pub fn radix_text(n: u64, radix: u64) -> (r: String)
    requires
        2 <= radix <= 16,
    ensures
        r@ == digits(n as nat, radix as nat),
    decreases n,
{
    if n < radix {
        let mut s = String::new();
        push_char(&mut s, digit_of(n));
        proof {
            assert(s@ =~= seq![digit_char(n as nat)]);
        }
        s
    } else {
        assert(n / radix < n) by (nonlinear_arith)
            requires
                radix >= 2,
                n >= radix,
        ;
        let mut s = radix_text(n / radix, radix);
        push_char(&mut s, digit_of(n % radix));
        s
    }
}

/// Decimal text of an unsigned number.
pub fn usize_text(n: usize) -> (r: String)
    ensures
        r@ == dec(n as nat),
{
    radix_text(n as u64, 10)
}

/// Decimal text of a signed number.
pub fn i64_text(n: i64) -> (r: String)
    ensures
        r@ == signed_dec(n as int),
{
    if n < 0 {
        let m: u64 = (0 - (n as i128)) as u64;
        let mut s = String::new();
        push_char(&mut s, '-');
        let d = radix_text(m, 10);
        s.append(d.as_str());
        proof {
            assert(s@ =~= seq!['-'] + dec((-n) as nat));
        }
        s
    } else {
        radix_text(n as u64, 10)
    }
}

/// Every run of characters that are not letters or digits, written as one `_`.
pub open spec fn collapse(s: Seq<char>) -> Seq<char>
    decreases s.len(),
{
    if s.len() == 0 {
        Seq::empty()
    } else if alnum(s.last()) {
        collapse(s.drop_last()).push(s.last())
    } else if s.len() >= 2 && !alnum(s[s.len() - 2]) {
        collapse(s.drop_last())
    } else {
        collapse(s.drop_last()).push('_')
    }
}

/// `s` without its leading underscores.
pub open spec fn trim_front(s: Seq<char>) -> Seq<char>
    decreases s.len(),
{
    if s.len() > 0 && s[0] == '_' {
        trim_front(s.drop_first())
    } else {
        s
    }
}

/// `s` without its trailing underscores.
pub open spec fn trim_back(s: Seq<char>) -> Seq<char>
    decreases s.len(),
{
    if s.len() > 0 && s.last() == '_' {
        trim_back(s.drop_last())
    } else {
        s
    }
}

/// The C identifier made from a printable name: runs of other characters
/// become one `_`, and underscores at either end are dropped.
pub open spec fn sanitized(s: Seq<char>) -> Seq<char> {
    trim_back(trim_front(collapse(s)))
}

/// Builds the C identifier for the printable name `name`.
pub fn sanitize(name: &str) -> (r: String)
    ensures
        r@ == sanitized(name@),
{
    let n = name.unicode_len();
    let mut out = String::new();
    let mut last_was_underscore = false;
    let mut i: usize = 0;
    while i < n
        invariant
            n == name@.len(),
            i <= n,
            out@ == collapse(name@.subrange(0, i as int)),
            last_was_underscore == (i > 0 && !alnum(name@[i - 1])),
        decreases n - i,
    {
        let c = name.get_char(i);
        let ghost pre = name@.subrange(0, i as int);
        let ghost next = name@.subrange(0, i + 1);
        proof {
            assert(next.drop_last() =~= pre);
            assert(next.last() == c);
            if i >= 1 {
                assert(next[next.len() - 2] == name@[i - 1]);
            }
        }
        if is_alnum(c) {
            push_char(&mut out, c);
            last_was_underscore = false;
        } else {
            if !last_was_underscore {
                push_char(&mut out, '_');
                last_was_underscore = true;
            }
        }
        i = i + 1;
    }
    proof {
        assert(name@.subrange(0, n as int) =~= name@);
    }
    let ghost c = out@;
    let m = out.as_str().unicode_len();
    let mut start: usize = 0;
    proof {
        assert(c.subrange(0, m as int) =~= c);
    }
    while start < m && out.as_str().get_char(start) == '_'
        invariant
            c == out@,
            m == c.len(),
            start <= m,
            trim_front(c) == trim_front(c.subrange(start as int, m as int)),
        decreases m - start,
    {
        proof {
            assert(c.subrange(start as int, m as int).drop_first() =~= c.subrange(start + 1, m as int));
        }
        start = start + 1;
    }
    let mut end: usize = m;
    let ghost front = c.subrange(start as int, m as int);
    proof {
        assert(trim_front(c) == front);
    }
    while end > start && out.as_str().get_char(end - 1) == '_'
        invariant
            c == out@,
            m == c.len(),
            start <= end <= m,
            front == c.subrange(start as int, m as int),
            trim_back(front) == trim_back(c.subrange(start as int, end as int)),
        decreases end - start,
    {
        proof {
            assert(c.subrange(start as int, end as int).drop_last() =~= c.subrange(start as int, end - 1));
        }
        end = end - 1;
    }
    let piece = out.as_str().substring_char(start, end);
    String::from_str(piece)
}

/// Whether `pat` occurs in `s` as a contiguous piece.
pub open spec fn occurs_in<T>(pat: Seq<T>, s: Seq<T>) -> bool {
    exists|i: int| 0 <= i && i + pat.len() <= s.len() && #[trigger] s.subrange(i, i + pat.len()) == pat
}

/// Whether the text `pat` occurs in the text `s`, compared byte by byte.
pub fn contains_text(s: &str, pat: &str) -> (r: bool)
    ensures
        r == occurs_in(encode_utf8(pat@), encode_utf8(s@)),
{
    let sb = s.as_bytes_vec();
    let pb = pat.as_bytes_vec();
    let n = sb.len();
    let m = pb.len();
    let ghost sv = encode_utf8(s@);
    let ghost pv = encode_utf8(pat@);
    assert(sb@ == sv);
    assert(pb@ == pv);
    if m > n {
        proof {
            assert forall|i: int| 0 <= i && i + m <= n implies #[trigger] sb@.subrange(i, i + m) != pb@ by {}
        }
        return false;
    }
    let mut i: usize = 0;
    while i <= n - m
        invariant
            n == sb@.len(),
            m == pb@.len(),
            sb@ == sv,
            pb@ == pv,
            sv == encode_utf8(s@),
            pv == encode_utf8(pat@),
            m <= n,
            i <= n - m + 1,
            forall|k: int| 0 <= k < i ==> #[trigger] sb@.subrange(k, k + m) != pb@,
        decreases n + 1 - i,
    {
        let mut j: usize = 0;
        let mut same = true;
        while j < m
            invariant
                n == sb@.len(),
                m == pb@.len(),
                sb@ == sv,
                pb@ == pv,
                sv == encode_utf8(s@),
                pv == encode_utf8(pat@),
                i + m <= n,
                j <= m,
                same == (forall|k: int| 0 <= k < j ==> sb@[i + k] == pb@[k]),
            decreases m - j,
        {
            if sb[i + j] != pb[j] {
                same = false;
            }
            j = j + 1;
        }
        if same {
            proof {
                assert(sb@.subrange(i as int, i + m) =~= pb@);
                assert(occurs_in(pb@, sb@));
            }
            return true;
        }
        proof {
            assert forall|k: int| 0 <= k < i + 1 implies #[trigger] sb@.subrange(k, k + m) != pb@ by {
                if k == i {
                    let w = choose|q: int| 0 <= q < m && !(sb@[i + q] == pb@[q]);
                    assert(sb@.subrange(k, k + m)[w] != pb@[w]);
                }
            }
        }
        i = i + 1;
    }
    false
}

/// A sequence occurs in any sequence that starts with it.
pub proof fn lemma_occurs_prefix<T>(pat: Seq<T>, s: Seq<T>)
    requires
        pat.len() <= s.len(),
        s.subrange(0, pat.len() as int) == pat,
    ensures
        occurs_in(pat, s),
{
    assert(s.subrange(0int, 0int + pat.len()) == pat);
}

/// The UTF-8 bytes of two texts, one after the other, are those of the joined text.
pub proof fn lemma_encode_concat(a: Seq<char>, b: Seq<char>)
    ensures
        encode_utf8(a + b) == encode_utf8(a) + encode_utf8(b),
    decreases a.len(),
{
    if a.len() == 0 {
        assert(a + b =~= b);
        assert(encode_utf8(a) =~= Seq::<u8>::empty());
        assert(encode_utf8(a) + encode_utf8(b) =~= encode_utf8(b));
    } else {
        assert((a + b).drop_first() =~= a.drop_first() + b);
        assert((a + b)[0] == a[0]);
        lemma_encode_concat(a.drop_first(), b);
        assert(encode_utf8(a + b) =~= encode_utf8(a) + encode_utf8(b));
    }
}

/// A piece that occurs in a text still occurs once more is written after it.
pub proof fn lemma_occurs_extend<T>(pat: Seq<T>, s: Seq<T>, t: Seq<T>)
    requires
        occurs_in(pat, s),
        s.is_prefix_of(t),
    ensures
        occurs_in(pat, t),
{
    let i = choose|i: int| 0 <= i && i + pat.len() <= s.len() && #[trigger] s.subrange(i, i + pat.len()) == pat;
    assert(t.subrange(i, i + pat.len()) =~= s.subrange(i, i + pat.len()));
}

/// A piece occurs in a text where the text holds it.
pub proof fn lemma_occurs_at<T>(pat: Seq<T>, s: Seq<T>, i: int)
    requires
        0 <= i,
        i + pat.len() <= s.len(),
        s.subrange(i, i + pat.len()) == pat,
    ensures
        occurs_in(pat, s),
{
}

} // verus!
