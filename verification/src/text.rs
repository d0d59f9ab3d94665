//! Character classes and elementary scanning over strings, shared by the
//! version grammar and the device-path grammar.

use vstd::prelude::*;

verus! {

/// The character classes that the grammars of this crate scan over.
#[derive(Clone, Copy, PartialEq, Eq, Structural)]
pub enum CharClass {
    /// An ASCII decimal digit.
    Digit,
    /// An ASCII decimal digit or a dot.
    DotDigit,
    /// An ASCII lowercase letter.
    Lower,
    /// A character allowed in a device name: lowercase letter or digit.
    DevChar,
    /// Any character but a dot.
    NonDot,
    /// Any character but a newline.
    NonNewline,
}

pub open spec fn is_digit(c: char) -> bool {
    '0' <= c && c <= '9'
}

pub open spec fn is_lower(c: char) -> bool {
    'a' <= c && c <= 'z'
}

pub open spec fn in_class(k: CharClass, c: char) -> bool {
    match k {
        CharClass::Digit => is_digit(c),
        CharClass::DotDigit => is_digit(c) || c == '.',
        CharClass::Lower => is_lower(c),
        CharClass::DevChar => is_digit(c) || is_lower(c),
        CharClass::NonDot => c != '.',
        CharClass::NonNewline => c != '\n',
    }
}

/// The end of the run of `k`-class characters that starts at `i`: the first
/// position at or after `i` that is out of bounds or holds a character
/// outside the class.
pub open spec fn run_end(s: Seq<char>, i: int, k: CharClass) -> int
    decreases s.len() - i when 0 <= i <= s.len()
{
    if i < 0 || i >= s.len() {
        i
    } else if in_class(k, s[i]) {
        run_end(s, i + 1, k)
    } else {
        i
    }
}

pub proof fn lemma_run_end(s: Seq<char>, i: int, k: CharClass)
    requires
        0 <= i <= s.len(),
    ensures
        i <= run_end(s, i, k) <= s.len(),
        forall|j: int| i <= j < run_end(s, i, k) ==> in_class(k, s[j]),
        run_end(s, i, k) < s.len() ==> !in_class(k, s[run_end(s, i, k)]),
    decreases s.len() - i,
{
    if i < s.len() && in_class(k, s[i]) {
        lemma_run_end(s, i + 1, k);
    }
}

/// Whether `c` is in class `k`.
pub fn class_check(k: CharClass, c: char) -> (r: bool)
    ensures
        r == in_class(k, c),
{
    let u = c as u32;
    match k {
        CharClass::Digit => 48 <= u && u <= 57,
        CharClass::DotDigit => (48 <= u && u <= 57) || u == 46,
        CharClass::Lower => 97 <= u && u <= 122,
        CharClass::DevChar => (48 <= u && u <= 57) || (97 <= u && u <= 122),
        CharClass::NonDot => u != 46,
        CharClass::NonNewline => u != 10,
    }
}

/// Scans forward from `i` over characters of class `k` and returns the end
/// of the run.
pub fn scan_run(s: &str, i: usize, k: CharClass) -> (r: usize)
    requires
        i <= s@.len(),
    ensures
        r == run_end(s@, i as int, k),
        i <= r <= s@.len(),
{
    let n = s.unicode_len();
    let mut j = i;
    while j < n && class_check(k, s.get_char(j))
        invariant
            i <= j <= n,
            n == s@.len(),
            run_end(s@, j as int, k) == run_end(s@, i as int, k),
        decreases n - j,
    {
        j = j + 1;
    }
    proof {
        lemma_run_end(s@, j as int, k);
    }
    j
}

pub open spec fn digits_only(s: Seq<char>) -> bool {
    forall|i: int| 0 <= i < s.len() ==> is_digit(s[i])
}

pub open spec fn digit_val(c: char) -> nat {
    (c as int - '0' as int) as nat
}

/// The value of a most-significant-digit-first decimal numeral.
pub open spec fn dec_val(s: Seq<char>) -> nat
    decreases s.len(),
{
    if s.len() == 0 {
        0
    } else {
        dec_val(s.drop_last()) * 10 + digit_val(s.last())
    }
}

pub open spec fn pow10(n: nat) -> nat
    decreases n,
{
    if n == 0 {
        1
    } else {
        10 * pow10((n - 1) as nat)
    }
}

pub proof fn lemma_pow10_pos(n: nat)
    ensures
        pow10(n) >= 1,
    decreases n,
{
    if n > 0 {
        lemma_pow10_pos((n - 1) as nat);
    }
}

pub proof fn lemma_pow10_mono(m: nat, n: nat)
    requires
        m <= n,
    ensures
        pow10(m) <= pow10(n),
    decreases n,
{
    if m < n {
        lemma_pow10_mono(m, (n - 1) as nat);
        lemma_pow10_pos((n - 1) as nat);
    }
}

/// A numeral's value is below `pow10` of its length.
pub proof fn lemma_dec_val_upper(s: Seq<char>)
    requires
        digits_only(s),
    ensures
        dec_val(s) < pow10(s.len()),
    decreases s.len(),
{
    if s.len() > 0 {
        assert(digits_only(s.drop_last()));
        lemma_dec_val_upper(s.drop_last());
        assert(digit_val(s.last()) <= 9);
    }
}

/// A numeral that does not start with a zero is at least `pow10` of one
/// less than its length.
pub proof fn lemma_dec_val_lower(s: Seq<char>)
    requires
        digits_only(s),
        s.len() > 0,
        s[0] != '0',
    ensures
        dec_val(s) >= pow10((s.len() - 1) as nat),
    decreases s.len(),
{
    if s.len() == 1 {
        assert(digit_val(s[0]) >= 1);
    } else {
        assert(digits_only(s.drop_last()));
        lemma_dec_val_lower(s.drop_last());
    }
}

pub proof fn lemma_dec_val_single(c: char)
    ensures
        dec_val(seq![c]) == digit_val(c),
{
    assert(seq![c].drop_last() =~= Seq::<char>::empty());
    assert(dec_val(Seq::<char>::empty()) == 0);
}

pub proof fn lemma_dec_val_concat(u: Seq<char>, v: Seq<char>)
    ensures
        dec_val(u + v) == dec_val(u) * pow10(v.len()) + dec_val(v),
    decreases v.len(),
{
    if v.len() == 0 {
        assert(u + v =~= u);
        assert(pow10(0) == 1);
        assert(dec_val(v) == 0);
        assert(dec_val(u) * 1 == dec_val(u));
        assert(dec_val(u + v) == dec_val(u) * pow10(v.len()) + dec_val(v));
    } else {
        lemma_dec_val_concat(u, v.drop_last());
        let w = u + v;
        let p = pow10((v.len() - 1) as nat);
        let x = dec_val(u);
        let y = dec_val(v.drop_last());
        assert(w.len() == u.len() + v.len());
        assert(w.drop_last() =~= u + v.drop_last());
        assert(w.last() == v.last());
        assert(v.drop_last().len() == v.len() - 1);
        assert(dec_val(w) == dec_val(w.drop_last()) * 10 + digit_val(w.last()));
        assert(dec_val(u + v.drop_last()) == x * p + y);
        assert(pow10(v.len()) == 10 * p);
        assert((x * p + y) * 10 == x * (10 * p) + y * 10) by (nonlinear_arith);
        assert(dec_val(v) == y * 10 + digit_val(v.last()));
        assert(dec_val(w) == x * (10 * p) + y * 10 + digit_val(v.last()));
        assert(x * (10 * p) == x * pow10(v.len()));
        assert(dec_val(w) == x * pow10(v.len()) + dec_val(v));
    }
}

/// A run of zeros contributes nothing to the value.
pub proof fn lemma_dec_val_zeros(s: Seq<char>)
    requires
        forall|i: int| 0 <= i < s.len() ==> s[i] == '0',
    ensures
        dec_val(s) == 0,
    decreases s.len(),
{
    if s.len() > 0 {
        lemma_dec_val_zeros(s.drop_last());
    }
}

/// Equal-length numerals compare as their first differing digit does.
pub proof fn lemma_dec_val_lex(a: Seq<char>, b: Seq<char>, d: int)
    requires
        digits_only(a),
        digits_only(b),
        a.len() == b.len(),
        0 <= d < a.len(),
        forall|j: int| 0 <= j < d ==> a[j] == b[j],
        (a[d] as int) < (b[d] as int),
    ensures
        dec_val(a) < dec_val(b),
{
    let n = a.len() as int;
    let pre_a = a.subrange(0, d);
    let pre_b = b.subrange(0, d);
    let suf_a = a.subrange(d + 1, n);
    let suf_b = b.subrange(d + 1, n);
    assert(pre_a =~= pre_b);
    assert(a =~= pre_a + seq![a[d]] + suf_a);
    assert(b =~= pre_b + seq![b[d]] + suf_b);
    lemma_dec_val_concat(pre_a + seq![a[d]], suf_a);
    lemma_dec_val_concat(pre_b + seq![b[d]], suf_b);
    lemma_dec_val_concat(pre_a, seq![a[d]]);
    lemma_dec_val_concat(pre_b, seq![b[d]]);
    assert(digits_only(suf_a)) by {
        assert(forall|i: int| 0 <= i < suf_a.len() ==> suf_a[i] == a[d + 1 + i]);
    }
    assert(digits_only(suf_b)) by {
        assert(forall|i: int| 0 <= i < suf_b.len() ==> suf_b[i] == b[d + 1 + i]);
    }
    lemma_dec_val_upper(suf_a);
    lemma_dec_val_upper(suf_b);
    let m = suf_a.len();
    let va = dec_val(pre_a) * 10 + digit_val(a[d]);
    let vb = dec_val(pre_b) * 10 + digit_val(b[d]);
    lemma_dec_val_single(a[d]);
    lemma_dec_val_single(b[d]);
    assert(pow10(0) == 1);
    assert(pow10(1) == 10);
    assert(dec_val(pre_a + seq![a[d]]) == dec_val(pre_a) * 10 + digit_val(a[d]));
    assert(dec_val(pre_b + seq![b[d]]) == dec_val(pre_b) * 10 + digit_val(b[d]));
    assert(dec_val(a) == va * pow10(m) + dec_val(suf_a));
    assert(dec_val(b) == vb * pow10(m) + dec_val(suf_b));
    assert(digit_val(a[d]) < digit_val(b[d]));
    assert(va + 1 <= vb);
    assert(va * pow10(m) + pow10(m) <= vb * pow10(m)) by (nonlinear_arith)
        requires
            va + 1 <= vb,
    ;
    assert(dec_val(a) < va * pow10(m) + pow10(m));
}

/// Extending a numeral to the right can only increase its value.
pub proof fn lemma_dec_val_prefix(s: Seq<char>, n: int)
    requires
        0 <= n <= s.len(),
    ensures
        dec_val(s.subrange(0, n)) <= dec_val(s),
    decreases s.len() - n,
{
    if n < s.len() {
        lemma_dec_val_prefix(s, n + 1);
        assert(s.subrange(0, n + 1).drop_last() =~= s.subrange(0, n));
        assert(dec_val(s.subrange(0, n + 1)) == dec_val(s.subrange(0, n)) * 10 + digit_val(
            s.subrange(0, n + 1).last(),
        ));
    } else {
        assert(s.subrange(0, n) =~= s);
    }
}

/// The outcome of a three-way comparison.
#[derive(Clone, Copy, PartialEq, Eq, Structural, Debug)]
pub enum Rel {
    Lt,
    Eq,
    Gt,
}

/// Compares two decimal numerals by value, without bounding their length.
pub fn cmp_numerals(a: &str, b: &str) -> (r: Rel)
    requires
        digits_only(a@),
        digits_only(b@),
    ensures
        r == Rel::Lt <==> dec_val(a@) < dec_val(b@),
        r == Rel::Eq <==> dec_val(a@) == dec_val(b@),
        r == Rel::Gt <==> dec_val(a@) > dec_val(b@),
{
    let na = a.unicode_len();
    let nb = b.unicode_len();
    let mut za: usize = 0;
    while za < na && a.get_char(za) == '0'
        invariant
            0 <= za <= na,
            na == a@.len(),
            forall|j: int| 0 <= j < za ==> a@[j] == '0',
        decreases na - za,
    {
        za = za + 1;
    }
    let mut zb: usize = 0;
    while zb < nb && b.get_char(zb) == '0'
        invariant
            0 <= zb <= nb,
            nb == b@.len(),
            forall|j: int| 0 <= j < zb ==> b@[j] == '0',
        decreases nb - zb,
    {
        zb = zb + 1;
    }
    let ghost sa = a@.subrange(za as int, na as int);
    let ghost sb = b@.subrange(zb as int, nb as int);
    proof {
        lemma_dec_val_zeros(a@.subrange(0, za as int));
        lemma_dec_val_zeros(b@.subrange(0, zb as int));
        assert(a@ =~= a@.subrange(0, za as int) + sa);
        assert(b@ =~= b@.subrange(0, zb as int) + sb);
        lemma_dec_val_concat(a@.subrange(0, za as int), sa);
        lemma_dec_val_concat(b@.subrange(0, zb as int), sb);
        assert(dec_val(a@) == dec_val(sa));
        assert(dec_val(b@) == dec_val(sb));
        assert(digits_only(sa));
        assert(digits_only(sb));
    }
    let la = na - za;
    let lb = nb - zb;
    if la < lb {
        proof {
            lemma_dec_val_upper(sa);
            lemma_dec_val_lower(sb);
            lemma_pow10_mono(la as nat, (lb - 1) as nat);
        }
        return Rel::Lt;
    }
    if lb < la {
        proof {
            lemma_dec_val_upper(sb);
            lemma_dec_val_lower(sa);
            lemma_pow10_mono(lb as nat, (la - 1) as nat);
        }
        return Rel::Gt;
    }
    let mut j: usize = 0;
    while j < la
        invariant
            0 <= j <= la,
            la == lb,
            za + la == na,
            zb + lb == nb,
            na == a@.len(),
            nb == b@.len(),
            sa == a@.subrange(za as int, na as int),
            sb == b@.subrange(zb as int, nb as int),
            digits_only(sa),
            digits_only(sb),
            dec_val(a@) == dec_val(sa),
            dec_val(b@) == dec_val(sb),
            forall|i: int| 0 <= i < j ==> sa[i] == sb[i],
        decreases la - j,
    {
        let ca = a.get_char(za + j);
        let cb = b.get_char(zb + j);
        if (ca as u32) < (cb as u32) {
            proof {
                lemma_dec_val_lex(sa, sb, j as int);
            }
            return Rel::Lt;
        }
        if (cb as u32) < (ca as u32) {
            proof {
                lemma_dec_val_lex(sb, sa, j as int);
            }
            return Rel::Gt;
        }
        j = j + 1;
    }
    proof {
        assert(sa =~= sb);
    }
    Rel::Eq
}

/// The numeral after an optional leading plus sign.
pub open spec fn numeral_body(s: Seq<char>) -> Seq<char> {
    if s.len() > 0 && s[0] == '+' {
        s.drop_first()
    } else {
        s
    }
}

/// Whether `s` is what `usize` accepts as a decimal numeral: an optional
/// plus sign followed by one or more digits.
pub open spec fn is_usize_numeral(s: Seq<char>) -> bool {
    numeral_body(s).len() > 0 && digits_only(numeral_body(s))
}

/// Parses a decimal numeral the way `str::parse::<usize>` does: `Some`
/// exactly on well-formed numerals whose value fits.
pub fn parse_usize(s: &str) -> (r: Option<usize>)
    ensures
        match r {
            Some(n) => is_usize_numeral(s@) && dec_val(numeral_body(s@)) == n as nat,
            None => !is_usize_numeral(s@) || dec_val(numeral_body(s@)) > usize::MAX as nat,
        },
{
    let n = s.unicode_len();
    let st: usize = if n > 0 && s.get_char(0) == '+' {
        1
    } else {
        0
    };
    proof {
        if st == 1 {
            assert(numeral_body(s@) =~= s@.subrange(1, n as int));
        } else {
            assert(numeral_body(s@) =~= s@.subrange(0, n as int));
        }
    }
    if n == st {
        return None;
    }
    let mut acc: usize = 0;
    let mut i: usize = st;
    while i < n
        invariant
            st <= i <= n,
            st <= 1,
            n == s@.len(),
            n > st,
            numeral_body(s@) == s@.subrange(st as int, n as int),
            digits_only(s@.subrange(st as int, i as int)),
            acc as nat == dec_val(s@.subrange(st as int, i as int)),
        decreases n - i,
    {
        let c = s.get_char(i);
        if !class_check(CharClass::Digit, c) {
            proof {
                let body = numeral_body(s@);
                assert(body[i - st] == c);
            }
            return None;
        }
        let d: usize = ((c as u32) - 48) as usize;
        proof {
            assert(d as nat == digit_val(c));
            assert(s@.subrange(st as int, i as int + 1).drop_last() =~= s@.subrange(
                st as int,
                i as int,
            ));
            assert(s@.subrange(st as int, i as int + 1).last() == s@[i as int]);
        }
        if acc > (usize::MAX - d) / 10 {
            proof {
                let body = numeral_body(s@);
                let pre = s@.subrange(st as int, i as int + 1);
                assert(dec_val(pre) == acc as nat * 10 + d as nat);
                assert(acc as nat * 10 + d as nat > usize::MAX as nat) by (nonlinear_arith)
                    requires
                        acc as nat > ((usize::MAX - d) as nat) / 10,
                        d <= 9,
                ;
                assert(pre =~= body.subrange(0, i - st + 1));
                lemma_dec_val_prefix(body, i - st + 1);
            }
            return None;
        }
        proof {
            assert(acc as nat * 10 + d as nat <= usize::MAX as nat) by (nonlinear_arith)
                requires
                    acc as nat <= ((usize::MAX - d) as nat) / 10,
                    d <= 9,
            ;
        }
        acc = acc * 10 + d;
        i = i + 1;
    }
    proof {
        assert(s@.subrange(st as int, n as int) == numeral_body(s@));
    }
    Some(acc)
}

/// A run of `n` spaces.
pub open spec fn spaces(n: nat) -> Seq<char> {
    Seq::new(n, |i: int| ' ')
}

/// `s` padded on the right with spaces to width `w`, as a left-justified
/// column.
pub open spec fn pad_right(s: Seq<char>, w: nat) -> Seq<char> {
    if s.len() >= w {
        s
    } else {
        s + spaces((w - s.len()) as nat)
    }
}

/// Appends `s` to `out`, padded on the right with spaces to width `w`.
pub fn append_padded(out: &mut String, s: &str, w: usize)
    ensures
        final(out)@ == old(out)@ + pad_right(s@, w as nat),
{
    out.append(s);
    let n = s.unicode_len();
    let mut k = n;
    proof {
        reveal_strlit(" ");
        if n < w {
            assert(out@ =~= old(out)@ + (s@ + spaces((n - n) as nat)));
        } else {
            assert(pad_right(s@, w as nat) == s@);
        }
    }
    while k < w
        invariant
            n <= k,
            n == s@.len(),
            " "@ == seq![' '],
            n < w ==> k <= w && out@ == old(out)@ + (s@ + spaces((k - n) as nat)),
            n >= w ==> out@ == old(out)@ + s@ && k == n,
        decreases w - k,
    {
        out.append(" ");
        k = k + 1;
        proof {
            assert(s@ + spaces((k - n) as nat) =~= (s@ + spaces((k - 1 - n) as nat)) + seq![' ']);
        }
    }
    proof {
        if n < w {
            assert(pad_right(s@, w as nat) == s@ + spaces((w - n) as nat));
        }
    }
}

/// ASCII whitespace, as the probes' outputs use it.
pub open spec fn is_ascii_space(c: char) -> bool {
    c == ' ' || c == '\t' || c == '\n' || c == '\r'
}

/// The first index at or after `i` holding a character that is not ASCII
/// whitespace, or the length if there is none.
pub open spec fn skip_spaces_from(s: Seq<char>, i: int) -> int
    decreases s.len() - i when 0 <= i <= s.len()
{
    if i >= s.len() {
        i
    } else if is_ascii_space(s[i]) {
        skip_spaces_from(s, i + 1)
    } else {
        i
    }
}

/// The last index before `i` holding a character that is not ASCII
/// whitespace, plus one; or zero if there is none.
pub open spec fn rskip_spaces_from(s: Seq<char>, i: int) -> int
    decreases i when 0 <= i <= s.len()
{
    if i <= 0 {
        0
    } else if is_ascii_space(s[i - 1]) {
        rskip_spaces_from(s, i - 1)
    } else {
        i
    }
}

/// `s` with leading and trailing ASCII whitespace removed.
pub open spec fn trimmed(s: Seq<char>) -> Seq<char> {
    let lo = skip_spaces_from(s, 0);
    let hi = rskip_spaces_from(s, s.len() as int);
    if lo <= hi {
        s.subrange(lo, hi)
    } else {
        Seq::empty()
    }
}

fn is_space_char(c: char) -> (r: bool)
    ensures
        r == is_ascii_space(c),
{
    c == ' ' || c == '\t' || c == '\n' || c == '\r'
}

/// Removes leading and trailing ASCII whitespace.
pub fn trim_ascii(s: &str) -> (r: String)
    ensures
        r@ == trimmed(s@),
{
    let n = s.unicode_len();
    let mut lo: usize = 0;
    while lo < n && is_space_char(s.get_char(lo))
        invariant
            0 <= lo <= n,
            n == s@.len(),
            skip_spaces_from(s@, lo as int) == skip_spaces_from(s@, 0),
        decreases n - lo,
    {
        lo = lo + 1;
    }
    let mut hi: usize = n;
    while hi > lo && is_space_char(s.get_char(hi - 1))
        invariant
            lo <= hi <= n,
            n == s@.len(),
            rskip_spaces_from(s@, hi as int) == rskip_spaces_from(s@, n as int),
        decreases hi,
    {
        hi = hi - 1;
    }
    proof {
        if lo < n {
            assert(skip_spaces_from(s@, lo as int) == lo);
        }
        if hi > lo {
            assert(rskip_spaces_from(s@, hi as int) == hi);
        } else {
            if lo >= n {
                assert(skip_spaces_from(s@, lo as int) == lo);
            }
            assert(rskip_spaces_from(s@, hi as int) <= hi) by {
                lemma_rskip_le(s@, hi as int);
            }
            assert(skip_spaces_from(s@, 0) >= rskip_spaces_from(s@, n as int) ==> trimmed(s@)
                =~= Seq::<char>::empty());
        }
    }
    let out = s.substring_char(lo, hi);
    proof {
        if lo < hi {
            assert(out@ == trimmed(s@));
        } else {
            assert(out@ =~= Seq::<char>::empty());
        }
    }
    out.to_owned()
}

proof fn lemma_rskip_le(s: Seq<char>, i: int)
    requires
        0 <= i <= s.len(),
    ensures
        0 <= rskip_spaces_from(s, i) <= i,
    decreases i,
{
    if i > 0 && is_ascii_space(s[i - 1]) {
        lemma_rskip_le(s, i - 1);
    }
}

/// ASCII lowercase folding, character by character.
pub open spec fn fold_lower(c: char) -> char {
    if 'A' <= c && c <= 'Z' {
        ((c as u32) + 32) as char
    } else {
        c
    }
}

/// Whether `needle` occurs in `hay` at position `i`, comparing characters
/// after ASCII lowercase folding.
pub open spec fn ci_match_at(hay: Seq<char>, needle: Seq<char>, i: int) -> bool {
    0 <= i && i + needle.len() <= hay.len() && forall|j: int|
        0 <= j < needle.len() ==> fold_lower(hay[i + j]) == fold_lower(needle[j])
}

/// Whether `needle` occurs somewhere in `hay`, case-insensitively over
/// ASCII letters.
pub open spec fn contains_ci(hay: Seq<char>, needle: Seq<char>) -> bool {
    exists|i: int| ci_match_at(hay, needle, i)
}

fn fold_lower_char(c: char) -> (r: char)
    ensures
        r == fold_lower(c),
{
    let u = c as u32;
    if 65 <= u && u <= 90 {
        (((c as u8) + 32) as char)
    } else {
        c
    }
}

/// Whether `needle` occurs in `hay`, ignoring ASCII case.
pub fn contains_case_insensitive(hay: &str, needle: &str) -> (r: bool)
    ensures
        r == contains_ci(hay@, needle@),
{
    let nh = hay.unicode_len();
    let nn = needle.unicode_len();
    if nn > nh {
        proof {
            assert(forall|i: int| !ci_match_at(hay@, needle@, i));
        }
        return false;
    }
    let mut i: usize = 0;
    while i <= nh - nn
        invariant
            0 <= i <= nh - nn + 1,
            nn <= nh,
            nh == hay@.len(),
            nn == needle@.len(),
            forall|p: int| 0 <= p < i ==> !ci_match_at(hay@, needle@, p),
        decreases nh - nn - i + 1,
    {
        let mut j: usize = 0;
        let mut ok = true;
        while j < nn && ok
            invariant
                0 <= j <= nn,
                0 <= i <= nh - nn,
                nh == hay@.len(),
                nn == needle@.len(),
                ok ==> forall|q: int|
                    0 <= q < j ==> fold_lower(hay@[i + q]) == fold_lower(needle@[q]),
                !ok ==> !ci_match_at(hay@, needle@, i as int),
            decreases nn - j + if ok { 1int } else { 0int },
        {
            if fold_lower_char(hay.get_char(i + j)) != fold_lower_char(needle.get_char(j)) {
                ok = false;
            } else {
                j = j + 1;
            }
        }
        if ok {
            proof {
                assert(ci_match_at(hay@, needle@, i as int));
            }
            return true;
        }
        i = i + 1;
    }
    proof {
        assert forall|p: int| !ci_match_at(hay@, needle@, p) by {
            if 0 <= p && p + nn <= nh {
                assert(p < i);
            }
        }
    }
    false
}

/// Whether `needle` occurs in `hay` at position `i`, character for
/// character.
pub open spec fn match_at(hay: Seq<char>, needle: Seq<char>, i: int) -> bool {
    0 <= i && i + needle.len() <= hay.len() && forall|j: int|
        0 <= j < needle.len() ==> hay[i + j] == needle[j]
}

/// Whether `needle` occurs somewhere in `hay`.
pub open spec fn contains_seq(hay: Seq<char>, needle: Seq<char>) -> bool {
    exists|i: int| match_at(hay, needle, i)
}

/// Whether `needle` occurs in `hay`, character for character.
pub fn contains_str(hay: &str, needle: &str) -> (r: bool)
    ensures
        r == contains_seq(hay@, needle@),
{
    let nh = hay.unicode_len();
    let nn = needle.unicode_len();
    if nn > nh {
        proof {
            assert(forall|i: int| !match_at(hay@, needle@, i));
        }
        return false;
    }
    let mut i: usize = 0;
    while i <= nh - nn
        invariant
            0 <= i <= nh - nn + 1,
            nn <= nh,
            nh == hay@.len(),
            nn == needle@.len(),
            forall|p: int| 0 <= p < i ==> !match_at(hay@, needle@, p),
        decreases nh - nn - i + 1,
    {
        let mut j: usize = 0;
        let mut ok = true;
        while j < nn && ok
            invariant
                0 <= j <= nn,
                0 <= i <= nh - nn,
                nh == hay@.len(),
                nn == needle@.len(),
                ok ==> forall|q: int| 0 <= q < j ==> hay@[i + q] == needle@[q],
                !ok ==> !match_at(hay@, needle@, i as int),
            decreases nn - j + if ok { 1int } else { 0int },
        {
            if hay.get_char(i + j) != needle.get_char(j) {
                ok = false;
            } else {
                j = j + 1;
            }
        }
        if ok {
            proof {
                assert(match_at(hay@, needle@, i as int));
            }
            return true;
        }
        i = i + 1;
    }
    proof {
        assert forall|p: int| !match_at(hay@, needle@, p) by {
            if 0 <= p && p + nn <= nh {
                assert(p < i);
            }
        }
    }
    false
}

/// Whether two strings hold the same characters.
pub fn str_eq(a: &str, b: &str) -> (r: bool)
    ensures
        r == (a@ == b@),
{
    let na = a.unicode_len();
    let nb = b.unicode_len();
    if na != nb {
        proof {
            assert(a@ != b@);
        }
        return false;
    }
    let mut j: usize = 0;
    while j < na
        invariant
            0 <= j <= na,
            na == a@.len(),
            na == b@.len(),
            forall|q: int| 0 <= q < j ==> a@[q] == b@[q],
        decreases na - j,
    {
        if a.get_char(j) != b.get_char(j) {
            return false;
        }
        j = j + 1;
    }
    proof {
        assert(a@ =~= b@);
    }
    true
}

/// The digit character for a value below ten.
pub open spec fn digit_char(d: nat) -> char {
    if d == 0 {
        '0'
    } else if d == 1 {
        '1'
    } else if d == 2 {
        '2'
    } else if d == 3 {
        '3'
    } else if d == 4 {
        '4'
    } else if d == 5 {
        '5'
    } else if d == 6 {
        '6'
    } else if d == 7 {
        '7'
    } else if d == 8 {
        '8'
    } else {
        '9'
    }
}

/// The decimal rendering of `n`, most significant digit first.
pub open spec fn dec_str(n: nat) -> Seq<char>
    decreases n,
{
    if n < 10 {
        seq![digit_char(n)]
    } else {
        dec_str(n / 10).push(digit_char(n % 10))
    }
}

/// Appends the decimal rendering of `n` to `out`.
pub fn append_decimal(out: &mut String, n: usize)
    ensures
        final(out)@ == old(out)@ + dec_str(n as nat),
    decreases n,
{
    if n >= 10 {
        append_decimal(out, n / 10);
    }
    let d = n % 10;
    proof {
        reveal_strlit("0");
        reveal_strlit("1");
        reveal_strlit("2");
        reveal_strlit("3");
        reveal_strlit("4");
        reveal_strlit("5");
        reveal_strlit("6");
        reveal_strlit("7");
        reveal_strlit("8");
        reveal_strlit("9");
    }
    let ghost before = out@;
    if d == 0 {
        out.append("0");
    } else if d == 1 {
        out.append("1");
    } else if d == 2 {
        out.append("2");
    } else if d == 3 {
        out.append("3");
    } else if d == 4 {
        out.append("4");
    } else if d == 5 {
        out.append("5");
    } else if d == 6 {
        out.append("6");
    } else if d == 7 {
        out.append("7");
    } else if d == 8 {
        out.append("8");
    } else {
        out.append("9");
    }
    proof {
        assert(out@ =~= before.push(digit_char((n % 10) as nat)));
        if n < 10 {
            assert(old(out)@ + dec_str(n as nat) =~= old(out)@.push(digit_char(n as nat)));
        } else {
            assert(old(out)@ + dec_str((n / 10) as nat) + seq![digit_char((n % 10) as nat)]
                =~= old(out)@ + dec_str(n as nat));
            assert(out@ =~= old(out)@ + dec_str(n as nat));
        }
    }
}

} // verus!
