//! Character-level helpers shared by the validation and query logic:
//! trimming, UTF-8 byte lengths, the SQL `LIKE` match used by the searches,
//! the binary collation used for ordering, and decimal formatting.
use vstd::prelude::*;
use vstd::utf8::encode_utf8;

verus! {

/// The Unicode `White_Space` property, which is what `char::is_whitespace`
/// and therefore `str::trim` go by.
pub open spec fn is_white_space(c: char) -> bool {
    let u = c as u32;
    ||| 0x09 <= u <= 0x0d
    ||| u == 0x20
    ||| u == 0x85
    ||| u == 0xa0
    ||| u == 0x1680
    ||| 0x2000 <= u <= 0x200a
    ||| u == 0x2028
    ||| u == 0x2029
    ||| u == 0x202f
    ||| u == 0x205f
    ||| u == 0x3000
}

/// `s` without its leading white space.
pub open spec fn trim_start(s: Seq<char>) -> Seq<char>
    decreases s.len(),
{
    if s.len() > 0 && is_white_space(s[0]) {
        trim_start(s.drop_first())
    } else {
        s
    }
}

/// `s` without its trailing white space.
pub open spec fn trim_end(s: Seq<char>) -> Seq<char>
    decreases s.len(),
{
    if s.len() > 0 && is_white_space(s.last()) {
        trim_end(s.drop_last())
    } else {
        s
    }
}

/// `s` without leading and trailing white space.
pub open spec fn trimmed(s: Seq<char>) -> Seq<char> {
    trim_end(trim_start(s))
}

/// Number of bytes of the UTF-8 encoding of one character.
pub open spec fn char_width(c: char) -> nat {
    vstd::utf8::encode_scalar(c as u32).len()
}

fn char_width_exec(c: char) -> (w: usize)
    ensures
        w == char_width(c),
        1 <= w <= 4,
{
    proof {
        vstd::utf8::char_is_scalar(c);
    }
    let u = c as u32;
    if u <= 0x7f {
        1
    } else if u <= 0x7ff {
        2
    } else if u <= 0xffff {
        3
    } else {
        4
    }
}

/// `min(utf8_len(s), cap)`: the byte length of `s`, counted only as far as
/// `cap`.
pub fn utf8_len_capped(s: &str, cap: usize) -> (r: usize)
    ensures
        r == (if utf8_len(s@) < cap {
            utf8_len(s@)
        } else {
            cap as nat
        }),
{
    let cs = chars_of(s);
    if cap == 0 {
        return 0;
    }
    let mut acc: usize = 0;
    let mut i: usize = 0;
    assert(cs@.skip(0) =~= cs@);
    while i < cs.len()
        invariant
            cs@ == s@,
            i <= cs.len(),
            acc < cap,
            acc + utf8_len(cs@.skip(i as int)) == utf8_len(cs@),
        decreases cs.len() - i,
    {
        let ghost rest = cs@.skip(i as int);
        assert(rest.drop_first() =~= cs@.skip(i + 1));
        assert(rest[0] == cs@[i as int]);
        let w = char_width_exec(cs[i]);
        if w >= cap - acc {
            return cap;
        }
        acc = acc + w;
        i = i + 1;
    }
    assert(cs@.skip(i as int).len() == 0);
    acc
}

/// Number of bytes of the UTF-8 encoding of `s` (what `str::len` returns).
pub open spec fn utf8_len(s: Seq<char>) -> nat {
    encode_utf8(s).len()
}

/// Calls `String::push`, which appends one character.
#[verifier::external_body]
pub(crate) fn push_char(s: &mut String, c: char)
    ensures
        final(s)@ == old(s)@.push(c),
{
    s.push(c)
}

fn is_white_space_exec(c: char) -> (r: bool)
    ensures
        r == is_white_space(c),
{
    let u = c as u32;
    (0x09 <= u && u <= 0x0d) || u == 0x20 || u == 0x85 || u == 0xa0 || u == 0x1680 || (0x2000
        <= u && u <= 0x200a) || u == 0x2028 || u == 0x2029 || u == 0x202f || u == 0x205f || u
        == 0x3000
}

/// Leading white space can be dropped before trimming the start.
proof fn lemma_trim_start_skip(s: Seq<char>, i: int)
    requires
        0 <= i <= s.len(),
        forall|k: int| 0 <= k < i ==> is_white_space(#[trigger] s[k]),
    ensures
        trim_start(s) == trim_start(s.skip(i)),
    decreases i,
{
    if i > 0 {
        let t = s.drop_first();
        assert forall|k: int| 0 <= k < i - 1 implies is_white_space(#[trigger] t[k]) by {
            assert(t[k] == s[k + 1]);
        }
        lemma_trim_start_skip(t, i - 1);
        assert(t.skip(i - 1) =~= s.skip(i));
    } else {
        assert(s.skip(0) =~= s);
    }
}

/// Trailing white space can be dropped before trimming the end.
proof fn lemma_trim_end_take(s: Seq<char>, j: int)
    requires
        0 <= j <= s.len(),
        forall|k: int| j <= k < s.len() ==> is_white_space(#[trigger] s[k]),
    ensures
        trim_end(s) == trim_end(s.take(j)),
    decreases s.len() - j,
{
    if j < s.len() {
        let t = s.drop_last();
        assert(is_white_space(s[s.len() - 1]));
        assert forall|k: int| j <= k < t.len() implies is_white_space(#[trigger] t[k]) by {
            assert(t[k] == s[k]);
        }
        lemma_trim_end_take(t, j);
        assert(t.take(j) =~= s.take(j));
    } else {
        assert(s.take(j) =~= s);
    }
}

/// An owned copy of `s` with surrounding white space removed (what
/// `str::trim` removes: characters with the Unicode `White_Space` property).
pub fn trimmed_string(s: &str) -> (r: String)
    ensures
        r@ == trimmed(s@),
{
    let cs = chars_of(s);
    let n = cs.len();
    let mut i: usize = 0;
    while i < n && is_white_space_exec(cs[i])
        invariant
            n == cs.len(),
            i <= n,
            forall|k: int| 0 <= k < i ==> is_white_space(#[trigger] cs@[k]),
        decreases n - i,
    {
        i = i + 1;
    }
    let mut j: usize = n;
    while j > i && is_white_space_exec(cs[j - 1])
        invariant
            n == cs.len(),
            i <= j <= n,
            forall|k: int| j <= k < n ==> is_white_space(#[trigger] cs@[k]),
        decreases j,
    {
        j = j - 1;
    }
    let mut out: Vec<char> = Vec::new();
    let mut k: usize = i;
    while k < j
        invariant
            n == cs.len(),
            i <= k <= j <= n,
            out@ == cs@.subrange(i as int, k as int),
        decreases j - k,
    {
        out.push(cs[k]);
        assert(cs@.subrange(i as int, k + 1) =~= cs@.subrange(i as int, k as int).push(cs@[k as int]));
        k = k + 1;
    }
    proof {
        let sv = cs@;
        lemma_trim_start_skip(sv, i as int);
        let t = sv.skip(i as int);
        if i < n {
            assert(t[0] == sv[i as int]);
        }
        assert(trim_start(t) == t);
        assert forall|q: int| j - i <= q < t.len() implies is_white_space(#[trigger] t[q]) by {
            assert(t[q] == sv[q + i]);
        }
        lemma_trim_end_take(t, j - i);
        let w = t.take(j - i);
        if j > i {
            assert(w[w.len() - 1] == sv[j - 1]);
        }
        assert(trim_end(w) == w);
        assert(w =~= sv.subrange(i as int, j as int));
    }
    string_of(&out)
}

/// The characters of a string slice, in order.
pub fn chars_of(s: &str) -> (v: Vec<char>)
    ensures
        v@ == s@,
{
    let mut v: Vec<char> = Vec::new();
    for c in it: s.chars()
        invariant
            it.seq() == s@,
            v@ == it.seq().take(it.index()),
    {
        v.push(c);
    }
    v
}

/// A string made of the given characters.
pub fn string_of(cs: &Vec<char>) -> (s: String)
    ensures
        s@ == cs@,
{
    let mut s = String::new();
    let mut i: usize = 0;
    while i < cs.len()
        invariant
            i <= cs.len(),
            s@ == cs@.take(i as int),
        decreases cs.len() - i,
    {
        push_char(&mut s, cs[i]);
        assert(cs@.take(i + 1) =~= cs@.take(i as int).push(cs@[i as int]));
        i = i + 1;
    }
    assert(cs@.take(cs.len() as int) =~= cs@);
    s
}

/// Characters allowed in a login: ASCII letters and digits, `_` and `-`.
pub open spec fn is_login_char(c: char) -> bool {
    ||| ('0' <= c && c <= '9')
    ||| ('a' <= c && c <= 'z')
    ||| ('A' <= c && c <= 'Z')
    ||| c == '_'
    ||| c == '-'
}

/// Whether every character of `s` may stand in a login.
pub fn all_login_chars(s: &str) -> (r: bool)
    ensures
        r == (forall|i: int| 0 <= i < s@.len() ==> is_login_char(#[trigger] s@[i])),
{
    let cs = chars_of(s);
    let mut i: usize = 0;
    while i < cs.len()
        invariant
            i <= cs.len(),
            cs@ == s@,
            forall|k: int| 0 <= k < i ==> is_login_char(#[trigger] cs@[k]),
        decreases cs.len() - i,
    {
        let c = cs[i];
        let ok = ('0' <= c && c <= '9') || ('a' <= c && c <= 'z') || ('A' <= c && c <= 'Z')
            || c == '_' || c == '-';
        if !ok {
            assert(!is_login_char(cs@[i as int]));
            return false;
        }
        i = i + 1;
    }
    true
}

/// The code of `c` with ASCII capitals mapped to small letters: the only case
/// folding that SQLite's `LIKE` does.
pub open spec fn fold_case(c: char) -> u32 {
    let u = c as u32;
    if 65 <= u <= 90 {
        (u + 32) as u32
    } else {
        u
    }
}

fn fold_case_exec(c: char) -> (r: u32)
    ensures
        r == fold_case(c),
{
    let u = c as u32;
    if 65 <= u && u <= 90 {
        u + 32
    } else {
        u
    }
}

/// SQL `LIKE` without an escape character: `%` matches any run of characters,
/// `_` matches one character, and other characters match themselves up to
/// ASCII case.
pub open spec fn like(p: Seq<char>, t: Seq<char>) -> bool
    decreases p.len(), t.len(),
{
    if p.len() == 0 {
        t.len() == 0
    } else if p[0] == '%' {
        like(p.drop_first(), t) || (t.len() > 0 && like(p, t.drop_first()))
    } else {
        &&& t.len() > 0
        &&& (p[0] == '_' || fold_case(p[0]) == fold_case(t[0]))
        &&& like(p.drop_first(), t.drop_first())
    }
}

/// The pattern `%q%` that the searches build around a query.
pub open spec fn contains_pattern(q: Seq<char>) -> Seq<char> {
    seq!['%'] + q + seq!['%']
}

/// The characters of the pattern `%q%`.
pub fn contains_pattern_of(q: &str) -> (p: Vec<char>)
    ensures
        p@ == contains_pattern(q@),
{
    let qs = chars_of(q);
    let mut p: Vec<char> = Vec::new();
    p.push('%');
    let mut i: usize = 0;
    while i < qs.len()
        invariant
            i <= qs.len(),
            p@ == seq!['%'] + qs@.take(i as int),
        decreases qs.len() - i,
    {
        p.push(qs[i]);
        assert(qs@.take(i + 1) =~= qs@.take(i as int).push(qs@[i as int]));
        i = i + 1;
    }
    p.push('%');
    assert(qs@.take(qs.len() as int) =~= qs@);
    assert(p@ =~= contains_pattern(q@));
    p
}

/// `like(p, t)` computed row by row over the suffixes of `p` and `t`.
pub fn like_match(p: &Vec<char>, t: &Vec<char>) -> (r: bool)
    ensures
        r == like(p@, t@),
{
    let n = t.len();
    let m = p.len();
    // row[j] == like(p.skip(i), t.skip(j))
    let mut row: Vec<bool> = Vec::new();
    let mut j: usize = 0;
    while j < n
        invariant
            n == t.len(),
            j <= n,
            row@.len() == j,
            forall|k: int| 0 <= k < j ==> #[trigger] row@[k] == (k == n),
        decreases n - j,
    {
        row.push(false);
        j = j + 1;
    }
    row.push(true);
    assert forall|k: int| 0 <= k <= n implies #[trigger] row@[k] == like(
        p@.skip(m as int),
        t@.skip(k),
    ) by {
        assert(p@.skip(m as int).len() == 0);
    }
    let mut i: usize = m;
    while i > 0
        invariant
            n == t.len(),
            m == p.len(),
            i <= m,
            row@.len() == n + 1,
            forall|k: int| 0 <= k <= n ==> #[trigger] row@[k] == like(p@.skip(i as int), t@.skip(k)),
        decreases i,
    {
        i = i - 1;
        let pc = p[i];
        let ghost ps = p@.skip(i as int);
        assert(ps.drop_first() =~= p@.skip(i + 1));
        assert(ps[0] == pc);
        let mut next: Vec<bool> = Vec::new();
        let mut k: usize = 0;
        while k < n
            invariant
                n == t.len(),
                k <= n,
                next@.len() == k,
                forall|q: int| 0 <= q < k ==> !#[trigger] next@[q],
            decreases n - k,
        {
            next.push(false);
            k = k + 1;
        }
        next.push(false);
        if pc == '%' {
            // next[j] = row[j] || (j < n && next[j + 1])
            assert(t@.skip(n as int).len() == 0);
            next.set(n, row[n]);
            let mut jj: usize = n;
            while jj > 0
                invariant
                    n == t.len(),
                    jj <= n,
                    next@.len() == n + 1,
                    row@.len() == n + 1,
                    ps == p@.skip(i as int),
                    ps.len() > 0,
                    ps[0] == '%',
                    ps.drop_first() == p@.skip(i + 1),
                    forall|k: int| 0 <= k <= n ==> #[trigger] row@[k] == like(ps.drop_first(), t@.skip(k)),
                    forall|k: int| jj <= k <= n ==> #[trigger] next@[k] == like(ps, t@.skip(k)),
                decreases jj,
            {
                jj = jj - 1;
                let ghost tk = t@.skip(jj as int);
                assert(tk.drop_first() =~= t@.skip(jj + 1));
                let v = row[jj] || next[jj + 1];
                next.set(jj, v);
            }
        } else {
            let fp = fold_case_exec(pc);
            assert(t@.skip(n as int).len() == 0);
            let mut jj: usize = 0;
            while jj < n
                invariant
                    n == t.len(),
                    jj <= n,
                    next@.len() == n + 1,
                    row@.len() == n + 1,
                    ps == p@.skip(i as int),
                    ps.len() > 0,
                    ps[0] == pc,
                    pc != '%',
                    fp == fold_case(pc),
                    ps.drop_first() == p@.skip(i + 1),
                    forall|k: int| 0 <= k <= n ==> #[trigger] row@[k] == like(ps.drop_first(), t@.skip(k)),
                    forall|k: int| 0 <= k < jj ==> #[trigger] next@[k] == like(ps, t@.skip(k)),
                    !next@[n as int],
                decreases n - jj,
            {
                let ghost tk = t@.skip(jj as int);
                assert(tk.drop_first() =~= t@.skip(jj + 1));
                assert(tk[0] == t@[jj as int]);
                let tc = t[jj];
                let v = (pc == '_' || fp == fold_case_exec(tc)) && row[jj + 1];
                next.set(jj, v);
                jj = jj + 1;
            }
        }
        row = next;
    }
    assert(p@.skip(0) =~= p@);
    assert(t@.skip(0) =~= t@);
    row[0]
}

/// Whether `text` holds a match of the query `q` the way `text LIKE '%q%'` does.
pub fn like_contains(pattern: &Vec<char>, text: &str) -> (r: bool)
    ensures
        r == like(pattern@, text@),
{
    let t = chars_of(text);
    like_match(pattern, &t)
}

/// Lexicographic order of code points, which is the order of SQLite's
/// binary collation on UTF-8 text.
pub open spec fn seq_lt(a: Seq<char>, b: Seq<char>) -> bool
    decreases a.len(),
{
    if a.len() == 0 {
        b.len() > 0
    } else if b.len() == 0 {
        false
    } else if a[0] != b[0] {
        (a[0] as u32) < (b[0] as u32)
    } else {
        seq_lt(a.drop_first(), b.drop_first())
    }
}

/// Whether `a` sorts strictly before `b` in the binary collation.
pub fn str_lt(a: &str, b: &str) -> (r: bool)
    ensures
        r == seq_lt(a@, b@),
{
    let x = chars_of(a);
    let y = chars_of(b);
    assert(x@.skip(0) =~= x@);
    assert(y@.skip(0) =~= y@);
    let mut i: usize = 0;
    while i < x.len() && i < y.len() && x[i] == y[i]
        invariant
            i <= x.len(),
            i <= y.len(),
            x@ == a@,
            y@ == b@,
            seq_lt(a@, b@) == seq_lt(x@.skip(i as int), y@.skip(i as int)),
        decreases x.len() - i,
    {
        let ghost xs = x@.skip(i as int);
        let ghost ys = y@.skip(i as int);
        assert(xs.drop_first() =~= x@.skip(i + 1));
        assert(ys.drop_first() =~= y@.skip(i + 1));
        i = i + 1;
    }
    let ghost xs = x@.skip(i as int);
    let ghost ys = y@.skip(i as int);
    if i == x.len() {
        assert(xs.len() == 0);
        i < y.len()
    } else if i == y.len() {
        assert(ys.len() == 0);
        false
    } else {
        assert(xs[0] == x@[i as int]);
        assert(ys[0] == y@[i as int]);
        (x[i] as u32) < (y[i] as u32)
    }
}

/// Decimal digits of a natural number, most significant first.
pub open spec fn decimal(n: nat) -> Seq<char>
    decreases n,
{
    if n < 10 {
        seq![digit_char(n)]
    } else {
        decimal(n / 10).push(digit_char(n % 10))
    }
}

/// The character of a decimal digit.
pub open spec fn digit_char(d: nat) -> char {
    if d == 0 { '0' }
    else if d == 1 { '1' }
    else if d == 2 { '2' }
    else if d == 3 { '3' }
    else if d == 4 { '4' }
    else if d == 5 { '5' }
    else if d == 6 { '6' }
    else if d == 7 { '7' }
    else if d == 8 { '8' }
    else { '9' }
}

fn digit_char_exec(d: u64) -> (c: char)
    requires
        d < 10,
    ensures
        c == digit_char(d as nat),
{
    if d == 0 { '0' }
    else if d == 1 { '1' }
    else if d == 2 { '2' }
    else if d == 3 { '3' }
    else if d == 4 { '4' }
    else if d == 5 { '5' }
    else if d == 6 { '6' }
    else if d == 7 { '7' }
    else if d == 8 { '8' }
    else { '9' }
}

/// Appends the decimal digits of `n` to `s`.
pub fn push_decimal(s: &mut String, n: u64)
    ensures
        final(s)@ == old(s)@ + decimal(n as nat),
    decreases n,
{
    if n < 10 {
        push_char(s, digit_char_exec(n));
        assert(decimal(n as nat) =~= seq![digit_char(n as nat)]);
        assert(old(s)@.push(digit_char(n as nat)) =~= old(s)@ + decimal(n as nat));
    } else {
        push_decimal(s, n / 10);
        push_char(s, digit_char_exec(n % 10));
        assert(old(s)@ + decimal(n as nat) =~= (old(s)@ + decimal((n / 10) as nat)).push(
            digit_char((n % 10) as nat),
        ));
    }
}

pub proof fn lemma_seq_lt_irreflexive(a: Seq<char>)
    ensures
        !seq_lt(a, a),
    decreases a.len(),
{
    if a.len() > 0 {
        lemma_seq_lt_irreflexive(a.drop_first());
    }
}

pub proof fn lemma_seq_lt_transitive(a: Seq<char>, b: Seq<char>, c: Seq<char>)
    requires
        seq_lt(a, b),
        seq_lt(b, c),
    ensures
        seq_lt(a, c),
    decreases a.len(),
{
    if a.len() > 0 && b.len() > 0 && c.len() > 0 && a[0] == b[0] && b[0] == c[0] {
        lemma_seq_lt_transitive(a.drop_first(), b.drop_first(), c.drop_first());
    }
}

pub proof fn lemma_seq_lt_total(a: Seq<char>, b: Seq<char>)
    ensures
        a == b || seq_lt(a, b) || seq_lt(b, a),
    decreases a.len(),
{
    if a.len() > 0 && b.len() > 0 && a[0] == b[0] {
        lemma_seq_lt_total(a.drop_first(), b.drop_first());
        if a.drop_first() == b.drop_first() {
            assert(a =~= seq![a[0]] + a.drop_first());
            assert(b =~= seq![b[0]] + b.drop_first());
        }
    } else if a.len() > 0 && b.len() > 0 {
        vstd::utf8::char_u32_cast(a[0], a[0] as u32);
        vstd::utf8::char_u32_cast(b[0], b[0] as u32);
        assert((a[0] as u32) != (b[0] as u32));
    } else if a.len() == 0 && b.len() == 0 {
        assert(a =~= b);
    }
}

pub proof fn lemma_seq_lt_asymmetric(a: Seq<char>, b: Seq<char>)
    requires
        seq_lt(a, b),
    ensures
        !seq_lt(b, a),
{
    if seq_lt(b, a) {
        lemma_seq_lt_transitive(a, b, a);
        lemma_seq_lt_irreflexive(a);
    }
}

} // verus!
