//! Text helpers: character sequences, whitespace, decimal numbers.
use vstd::prelude::*;

verus! {

/// Appends one character to a `String`, through `String::push`.
/// Claimed: the string afterwards is the old contents followed by `c`
/// (the documented behaviour of `String::push`).
#[verifier::external_body]
pub(crate) fn push_char(s: &mut String, c: char)
    ensures
        final(s)@ == old(s)@.push(c),
{
    s.push(c);
}

/// The characters of `s`, in order.
pub fn chars_of(s: &str) -> (v: Vec<char>)
    ensures
        v@ == s@,
{
    let mut v: Vec<char> = Vec::new();
    for c in it: s.chars()
        invariant
            v@ == it.seq().take(it.index() as int),
            it.seq() == s@,
    {
        v.push(c);
    }
    v
}


/// The character of a decimal digit `d` (0 to 9).
pub open spec fn digit_char(d: int) -> char {
    (48 + d) as char
}

/// Decimal notation of a natural number, most significant digit first, no
/// leading zeros.
pub open spec fn decimal(n: nat) -> Seq<char>
    decreases n,
{
    if n < 10 {
        seq![digit_char(n as int)]
    } else {
        decimal(n / 10).push(digit_char((n % 10) as int))
    }
}

/// Different numbers have different decimal notations.
pub proof fn lemma_decimal_injective(a: nat, b: nat)
    requires
        decimal(a) == decimal(b),
    ensures
        a == b,
    decreases a,
{
    if a < 10 && b < 10 {
        assert(decimal(a) == seq![digit_char(a as int)]);
        assert(decimal(b) == seq![digit_char(b as int)]);
        let ca = digit_char(a as int);
        let cb = digit_char(b as int);
        assert(seq![ca][0] == ca);
        assert(seq![cb][0] == cb);
        assert(ca == cb);
        assert(digit_char(a as int) as int == 48 + a);
        assert(digit_char(b as int) as int == 48 + b);
        assert(a == b);
    } else if a < 10 {
        assert(decimal(b).len() >= 2) by {
            lemma_decimal_len(b);
        }
    } else if b < 10 {
        assert(decimal(a).len() >= 2) by {
            lemma_decimal_len(a);
        }
    } else {
        let da = decimal(a);
        let db = decimal(b);
        assert(da.last() == db.last());
        assert(da.drop_last() == decimal(a / 10));
        assert(db.drop_last() == decimal(b / 10));
        lemma_decimal_injective(a / 10, b / 10);
        assert(digit_char((a % 10) as int) as int == 48 + a % 10);
        assert(digit_char((b % 10) as int) as int == 48 + b % 10);
        assert(a % 10 == b % 10);
        assert(a == 10 * (a / 10) + a % 10 && b == 10 * (b / 10) + b % 10) by (nonlinear_arith);
        assert(a == b);
    }
}

/// Decimal notation has at least one digit, and two or more from 10 on.
pub proof fn lemma_decimal_len(n: nat)
    ensures
        decimal(n).len() >= 1,
        n >= 10 ==> decimal(n).len() >= 2,
    decreases n,
{
    if n >= 10 {
        lemma_decimal_len(n / 10);
    }
}

/// Decimal notation of an integer, with a leading `-` when negative.
pub open spec fn signed_decimal(i: int) -> Seq<char> {
    if i < 0 {
        seq!['-'] + decimal((-i) as nat)
    } else {
        decimal(i as nat)
    }
}

/// Appends the decimal notation of `n`.
pub fn push_decimal(s: &mut String, n: u64)
    ensures
        final(s)@ == old(s)@ + decimal(n as nat),
    decreases n,
{
    if n >= 10 {
        push_decimal(s, n / 10);
    }
    let d: u8 = (n % 10) as u8;
    let c: char = (48u8 + d) as char;
    push_char(s, c);
    assert(final(s)@ =~= old(s)@ + decimal(n as nat));
}

/// Appends the decimal notation of `i`, signed.
pub fn push_signed_decimal(s: &mut String, i: i64)
    ensures
        final(s)@ == old(s)@ + signed_decimal(i as int),
{
    if i < 0 {
        push_char(s, '-');
        let m: i128 = -(i as i128);
        push_decimal(s, m as u64);
        assert(final(s)@ =~= old(s)@ + signed_decimal(i as int));
    } else {
        push_decimal(s, i as u64);
    }
}

/// Appends the characters of `t`.
pub fn push_str(s: &mut String, t: &str)
    ensures
        final(s)@ == old(s)@ + t@,
{
    s.append(t);
}

/// Whether `a` and `b` hold the same characters.
pub fn str_eq(a: &str, b: &str) -> (r: bool)
    ensures
        r == (a@ == b@),
{
    let va = chars_of(a);
    let vb = chars_of(b);
    if va.len() != vb.len() {
        return false;
    }
    let mut i: usize = 0;
    while i < va.len()
        invariant
            va@ == a@,
            vb@ == b@,
            va.len() == vb.len(),
            i <= va.len(),
            forall|k: int| 0 <= k < i ==> va@[k] == vb@[k],
        decreases va.len() - i,
    {
        if va[i] != vb[i] {
            return false;
        }
        i += 1;
    }
    assert(a@ =~= b@);
    true
}

/// Whether `p` is a prefix of `s`.
pub fn starts_with(s: &str, p: &str) -> (r: bool)
    ensures
        r == (p@.len() <= s@.len() && s@.subrange(0, p@.len() as int) == p@),
{
    let vs = chars_of(s);
    let vp = chars_of(p);
    if vp.len() > vs.len() {
        return false;
    }
    let mut i: usize = 0;
    while i < vp.len()
        invariant
            vs@ == s@,
            vp@ == p@,
            vp.len() <= vs.len(),
            i <= vp.len(),
            forall|k: int| 0 <= k < i ==> vs@[k] == vp@[k],
        decreases vp.len() - i,
    {
        if vs[i] != vp[i] {
            assert(s@.subrange(0, p@.len() as int)[i as int] != p@[i as int]);
            return false;
        }
        i += 1;
    }
    assert(s@.subrange(0, p@.len() as int) =~= p@);
    true
}

/// A `String` holding the characters of `v`.
pub fn string_from_chars(v: &Vec<char>) -> (r: String)
    ensures
        r@ == v@,
{
    let mut s = String::new();
    let mut i: usize = 0;
    while i < v.len()
        invariant
            i <= v.len(),
            s@ == v@.take(i as int),
        decreases v.len() - i,
    {
        push_char(&mut s, v[i]);
        i += 1;
        assert(s@ =~= v@.take(i as int));
    }
    assert(v@.take(v.len() as int) =~= v@);
    s
}


/// Unicode `White_Space`: the characters that `char::is_whitespace` accepts.
pub open spec fn is_ws(c: char) -> bool {
    let u = c as int;
    ||| 0x09 <= u <= 0x0D
    ||| u == 0x20
    ||| u == 0x85
    ||| u == 0xA0
    ||| u == 0x1680
    ||| 0x2000 <= u <= 0x200A
    ||| u == 0x2028
    ||| u == 0x2029
    ||| u == 0x202F
    ||| u == 0x205F
    ||| u == 0x3000
}

/// Whether `c` is Unicode white space.
pub fn is_whitespace(c: char) -> (r: bool)
    ensures
        r == is_ws(c),
{
    let u = c as u32;
    (0x09 <= u && u <= 0x0D) || u == 0x20 || u == 0x85 || u == 0xA0 || u == 0x1680 || (0x2000
        <= u && u <= 0x200A) || u == 0x2028 || u == 0x2029 || u == 0x202F || u == 0x205F || u
        == 0x3000
}

/// `s` without its leading white space.
pub open spec fn trim_start(s: Seq<char>) -> Seq<char>
    decreases s.len(),
{
    if s.len() > 0 && is_ws(s[0]) {
        trim_start(s.drop_first())
    } else {
        s
    }
}

/// `s` without its trailing white space.
pub open spec fn trim_end(s: Seq<char>) -> Seq<char>
    decreases s.len(),
{
    if s.len() > 0 && is_ws(s.last()) {
        trim_end(s.drop_last())
    } else {
        s
    }
}

/// `s` without leading and trailing white space (what `str::trim` gives).
pub open spec fn trim(s: Seq<char>) -> Seq<char> {
    trim_end(trim_start(s))
}

/// The words of `s` after the partial word `cur`: the maximal runs of
/// characters that are not white space.
pub open spec fn words_from(s: Seq<char>, cur: Seq<char>) -> Seq<Seq<char>>
    decreases s.len(),
{
    if s.len() == 0 {
        if cur.len() > 0 {
            seq![cur]
        } else {
            seq![]
        }
    } else if is_ws(s[0]) {
        (if cur.len() > 0 {
            seq![cur]
        } else {
            seq![]
        }) + words_from(s.drop_first(), seq![])
    } else {
        words_from(s.drop_first(), cur.push(s[0]))
    }
}

/// The words of `s`, as `str::split_whitespace` yields them.
pub open spec fn words(s: Seq<char>) -> Seq<Seq<char>> {
    words_from(s, seq![])
}

proof fn lemma_trim_start_skip(s: Seq<char>, i: int)
    requires
        0 <= i <= s.len(),
        forall|k: int| 0 <= k < i ==> is_ws(s[k]),
        i == s.len() || !is_ws(s[i]),
    ensures
        trim_start(s) == s.skip(i),
    decreases i,
{
    if i > 0 {
        lemma_trim_start_skip(s.drop_first(), i - 1);
        assert(s.drop_first().skip(i - 1) =~= s.skip(i));
    } else {
        assert(s.skip(0) =~= s);
    }
}

proof fn lemma_trim_end_take(s: Seq<char>, j: int)
    requires
        0 <= j <= s.len(),
        forall|k: int| j <= k < s.len() ==> is_ws(s[k]),
        j == 0 || !is_ws(s[j - 1]),
    ensures
        trim_end(s) == s.take(j),
    decreases s.len() - j,
{
    if j < s.len() {
        lemma_trim_end_take(s.drop_last(), j);
        assert(s.drop_last().take(j) =~= s.take(j));
    } else {
        assert(s.take(j) =~= s);
    }
}

/// `s` without leading and trailing white space.
pub fn trim_chars(s: &str) -> (r: Vec<char>)
    ensures
        r@ == trim(s@),
{
    let v = chars_of(s);
    let n = v.len();
    let mut i: usize = 0;
    while i < n && is_whitespace(v[i])
        invariant
            v@ == s@,
            n == v.len(),
            i <= n,
            forall|k: int| 0 <= k < i ==> is_ws(v@[k]),
        decreases n - i,
    {
        i += 1;
    }
    proof {
        lemma_trim_start_skip(s@, i as int);
    }
    let mut j: usize = n;
    while j > i && is_whitespace(v[j - 1])
        invariant
            v@ == s@,
            n == v.len(),
            i <= j <= n,
            forall|k: int| j <= k < n ==> is_ws(v@[k]),
        decreases j,
    {
        j -= 1;
    }
    let ghost t = s@.skip(i as int);
    proof {
        assert forall|k: int| j - i <= k < t.len() implies is_ws(t[k]) by {
            assert(t[k] == v@[k + i]);
        }
        if j > i {
            assert(t[j - i - 1] == v@[j - 1]);
        }
        lemma_trim_end_take(t, j - i);
    }
    let mut r: Vec<char> = Vec::new();
    let mut k: usize = i;
    while k < j
        invariant
            v@ == s@,
            n == v.len(),
            i <= k <= j <= n,
            r@ == v@.subrange(i as int, k as int),
        decreases j - k,
    {
        r.push(v[k]);
        k += 1;
        assert(r@ =~= v@.subrange(i as int, k as int));
    }
    assert(r@ =~= t.take(j - i));
    r
}

proof fn lemma_words_from_split(s: Seq<char>, cur: Seq<char>)
    requires
        s.len() > 0,
    ensures
        words_from(s, cur) == if is_ws(s[0]) {
            (if cur.len() > 0 {
                seq![cur]
            } else {
                seq![]
            }) + words_from(s.drop_first(), seq![])
        } else {
            words_from(s.drop_first(), cur.push(s[0]))
        },
{
}

/// The words of `s` (maximal runs of non white space), in order.
pub fn split_words(s: &Vec<char>) -> (r: Vec<Vec<char>>)
    ensures
        r@.map_values(|w: Vec<char>| w@) == words(s@),
{
    let mut out: Vec<Vec<char>> = Vec::new();
    let mut cur: Vec<char> = Vec::new();
    let mut i: usize = 0;
    assert(s@.skip(0) =~= s@);
    assert(out@.map_values(|w: Vec<char>| w@) =~= Seq::<Seq<char>>::empty());
    assert(cur@ =~= Seq::<char>::empty());
    assert(Seq::<Seq<char>>::empty() + words(s@) =~= words(s@));
    while i < s.len()
        invariant
            i <= s.len(),
            out@.map_values(|w: Vec<char>| w@) + words_from(s@.skip(i as int), cur@) == words(
                s@,
            ),
        decreases s.len() - i,
    {
        let ghost rest = s@.skip(i as int);
        let ghost before = out@.map_values(|w: Vec<char>| w@);
        proof {
            lemma_words_from_split(rest, cur@);
            assert(rest.drop_first() =~= s@.skip(i + 1));
        }
        let c = s[i];
        if is_whitespace(c) {
            if cur.len() > 0 {
                let ghost cw = cur@;
                out.push(cur);
                cur = Vec::new();
                assert(out@.map_values(|w: Vec<char>| w@) =~= before + seq![cw]);
                assert(words_from(rest, cw) == seq![cw] + words_from(s@.skip(i + 1), seq![]));
                assert(before + seq![cw] + words_from(s@.skip(i + 1), cur@) =~= before + (seq![cw]
                    + words_from(s@.skip(i + 1), seq![])));
            } else {
                assert(cur@ =~= Seq::<char>::empty());
                assert(words_from(rest, cur@) == Seq::<Seq<char>>::empty() + words_from(
                    s@.skip(i + 1),
                    seq![],
                ));
                assert(Seq::<Seq<char>>::empty() + words_from(s@.skip(i + 1), seq![])
                    =~= words_from(s@.skip(i + 1), seq![]));
                assert(cur@ =~= Seq::<char>::empty());
            }
        } else {
            cur.push(c);
        }
        i += 1;
    }
    let ghost before = out@.map_values(|w: Vec<char>| w@);
    assert(s@.skip(i as int) =~= Seq::<char>::empty());
    if cur.len() > 0 {
        let ghost cw = cur@;
        out.push(cur);
        assert(out@.map_values(|w: Vec<char>| w@) =~= before + seq![cw]);
    } else {
        assert(before + Seq::<Seq<char>>::empty() =~= before);
    }
    out
}

/// The uppercase mapping of a string, as Unicode defines it.
pub uninterp spec fn uppercase(s: Seq<char>) -> Seq<char>;

/// The lowercase mapping of a string, as Unicode defines it.
pub uninterp spec fn lowercase(s: Seq<char>) -> Seq<char>;

/// Written in ASCII capital letters and digits only.
pub open spec fn plain_upper(s: Seq<char>) -> bool {
    forall|i: int| 0 <= i < s.len() ==> ('A' <= #[trigger] s[i] <= 'Z') || ('0' <= s[i] <= '9')
}

/// Calls `str::to_uppercase`. Claimed: the result is the Unicode uppercase
/// mapping of `s`, a function of `s` alone; and a text of ASCII capital
/// letters and digits comes back unchanged (a capital letter is its own
/// upper case, and a character without case maps to itself, as the
/// documentation of `char::to_uppercase` says). Nothing more is said.
#[verifier::external_body]
pub(crate) fn to_uppercase(s: &str) -> (r: String)
    ensures
        r@ == uppercase(s@),
        plain_upper(s@) ==> r@ == s@,
{
    s.to_uppercase()
}

/// Calls `str::to_lowercase`. Claimed: the result is the Unicode lowercase
/// mapping of `s`, a function of `s` alone; nothing more is said of it.
#[verifier::external_body]
pub(crate) fn to_lowercase(s: &str) -> (r: String)
    ensures
        r@ == lowercase(s@),
{
    s.to_lowercase()
}


/// A copy of a list of strings.
pub fn copy_strings(v: &Vec<String>) -> (r: Vec<String>)
    ensures
        r@ == v@,
{
    let mut out: Vec<String> = Vec::new();
    let mut i: usize = 0;
    while i < v.len()
        invariant
            i <= v.len(),
            out@ == v@.take(i as int),
        decreases v.len() - i,
    {
        out.push(v[i].clone());
        i += 1;
        assert(out@ =~= v@.take(i as int));
    }
    assert(v@.take(v.len() as int) =~= v@);
    out
}

/// No character of `s` is white space.
pub open spec fn no_ws(s: Seq<char>) -> bool {
    forall|i: int| 0 <= i < s.len() ==> !is_ws(#[trigger] s[i])
}

/// A text without white space at either end is its own trim.
pub proof fn lemma_trim_unchanged(s: Seq<char>)
    requires
        s.len() == 0 || (!is_ws(s[0]) && !is_ws(s.last())),
    ensures
        trim(s) == s,
{
}

/// A run without white space joins the partial word.
pub proof fn lemma_words_from_run(a: Seq<char>, rest: Seq<char>, cur: Seq<char>)
    requires
        no_ws(a),
    ensures
        words_from(a + rest, cur) == words_from(rest, cur + a),
    decreases a.len(),
{
    if a.len() == 0 {
        assert(a + rest =~= rest);
        assert(cur + a =~= cur);
    } else {
        let t = a + rest;
        assert(t[0] == a[0]);
        assert(t.drop_first() =~= a.drop_first() + rest);
        lemma_words_from_run(a.drop_first(), rest, cur.push(a[0]));
        assert(cur.push(a[0]) + a.drop_first() =~= cur + a);
    }
}

/// The words of `a`, a space, and `b`, where `a` and `b` are non-empty and
/// hold no white space: `a` and `b`.
pub proof fn lemma_two_words(a: Seq<char>, b: Seq<char>)
    requires
        no_ws(a),
        no_ws(b),
        a.len() > 0,
        b.len() > 0,
    ensures
        words(a + seq![' '] + b) == seq![a, b],
{
    let e = Seq::<char>::empty();
    assert(a + seq![' '] + b =~= a + (seq![' '] + b));
    lemma_words_from_run(a, seq![' '] + b, e);
    assert(e + a =~= a);
    let sb = seq![' '] + b;
    assert(sb[0] == ' ');
    assert(sb.drop_first() =~= b);
    lemma_words_from_run(b, e, e);
    assert(b + e =~= b);
    assert(e + b =~= b);
    assert(words_from(e, b) == seq![b]);
    assert(seq![a] + seq![b] =~= seq![a, b]);
}

/// Every word is non-empty and holds no white space.
pub proof fn lemma_words_shape(s: Seq<char>, cur: Seq<char>)
    requires
        no_ws(cur),
    ensures
        forall|k: int|
            0 <= k < words_from(s, cur).len() ==> no_ws(#[trigger] words_from(s, cur)[k])
                && words_from(s, cur)[k].len() > 0,
    decreases s.len(),
{
    if s.len() > 0 {
        if is_ws(s[0]) {
            lemma_words_shape(s.drop_first(), seq![]);
            let head: Seq<Seq<char>> = if cur.len() > 0 {
                seq![cur]
            } else {
                seq![]
            };
            let tail = words_from(s.drop_first(), seq![]);
            assert(words_from(s, cur) == head + tail);
            assert forall|k: int| 0 <= k < words_from(s, cur).len() implies no_ws(
                #[trigger] words_from(s, cur)[k],
            ) && words_from(s, cur)[k].len() > 0 by {
                if k < head.len() {
                    assert(words_from(s, cur)[k] == cur);
                } else {
                    assert(words_from(s, cur)[k] == tail[k - head.len()]);
                }
            }
        } else {
            let c2 = cur.push(s[0]);
            assert(no_ws(c2)) by {
                assert forall|i: int| 0 <= i < c2.len() implies !is_ws(#[trigger] c2[i]) by {
                    if i < cur.len() {
                        assert(c2[i] == cur[i]);
                    }
                }
            }
            lemma_words_shape(s.drop_first(), c2);
            assert(words_from(s, cur) == words_from(s.drop_first(), c2));
        }
    } else if cur.len() > 0 {
        assert(words_from(s, cur) == seq![cur]);
        assert(words_from(s, cur)[0] == cur);
    } else {
        assert(words_from(s, cur).len() == 0);
    }
}

} // verus!
