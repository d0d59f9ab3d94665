//! Version strings: the token grammar that recognises a version inside a
//! tool's output, and the version-aware ordering used against the
//! minimum-version policy.
//!
//! A version string is a sequence of dot-separated fields.  Fields compare
//! by the numeric value of their leading digit run first, and by plain
//! character order on the remaining (non-numeric) suffix; a version that
//! runs out of fields first, with the shared fields equal, is the smaller.

use crate::text::CharClass;
use crate::text::Rel;
use crate::text::class_check;
use crate::text::cmp_numerals;
use crate::text::dec_val;
use crate::text::digits_only;
use crate::text::in_class;
use crate::text::is_digit;
use crate::text::lemma_run_end;
use crate::text::run_end;
use crate::text::scan_run;
use vstd::prelude::*;

verus! {

/// `i` forced into `[lo, hi]`.
pub open spec fn clamped(i: int, lo: int, hi: int) -> int {
    if i < lo {
        lo
    } else if i > hi {
        hi
    } else {
        i
    }
}

/// Where the field that starts at `i` ends: at the next dot or at the end
/// of the string.
pub open spec fn field_end(s: Seq<char>, i: int) -> int {
    clamped(run_end(s, i, CharClass::NonDot), i, s.len() as int)
}

/// The numeric part of a field: the value of its leading digit run.
pub open spec fn field_num_val(f: Seq<char>) -> nat {
    dec_val(f.subrange(0, clamped(run_end(f, 0, CharClass::Digit), 0, f.len() as int)))
}

/// The non-numeric suffix of a field, after its leading digit run.
pub open spec fn field_suffix(f: Seq<char>) -> Seq<char> {
    f.subrange(clamped(run_end(f, 0, CharClass::Digit), 0, f.len() as int), f.len() as int)
}

/// Plain lexicographic order on character sequences, by code point, with a
/// proper prefix ordered before its extensions.
pub open spec fn lex_lt(a: Seq<char>, b: Seq<char>) -> bool
    decreases a.len(),
{
    if a.len() == 0 {
        b.len() > 0
    } else if b.len() == 0 {
        false
    } else if a[0] != b[0] {
        (a[0] as u32) < (b[0] as u32)
    } else {
        lex_lt(a.drop_first(), b.drop_first())
    }
}

/// Strict order on fields: numeric part first, suffix lexicographically.
pub open spec fn field_lt(a: Seq<char>, b: Seq<char>) -> bool {
    field_num_val(a) < field_num_val(b) || (field_num_val(a) == field_num_val(b) && lex_lt(
        field_suffix(a),
        field_suffix(b),
    ))
}

/// Version order from field positions `ia` and `ib` on: the version whose
/// remaining part starts at `ia` in `a` is at most the one starting at `ib`
/// in `b`.
pub open spec fn version_le_from(a: Seq<char>, ia: int, b: Seq<char>, ib: int) -> bool
    decreases a.len() - ia when 0 <= ia <= a.len() && 0 <= ib <= b.len()
{
    let ea = field_end(a, ia);
    let eb = field_end(b, ib);
    let fa = a.subrange(ia, ea);
    let fb = b.subrange(ib, eb);
    if field_lt(fa, fb) {
        true
    } else if field_lt(fb, fa) {
        false
    } else if ea >= a.len() {
        true
    } else if eb >= b.len() {
        false
    } else {
        version_le_from(a, ea + 1, b, eb + 1)
    }
}

/// The version-aware order: `a` is at most `b`.
pub open spec fn spec_version_le(a: Seq<char>, b: Seq<char>) -> bool {
    version_le_from(a, 0, b, 0)
}

/// Compares two character sequences lexicographically.
fn lex_cmp(a: &str, b: &str) -> (r: Rel)
    ensures
        (r == Rel::Lt) == lex_lt(a@, b@),
        (r == Rel::Gt) == lex_lt(b@, a@),
        (r == Rel::Eq) == (a@ == b@),
{
    let na = a.unicode_len();
    let nb = b.unicode_len();
    proof {
        assert(a@.skip(0) =~= a@);
        assert(b@.skip(0) =~= b@);
    }
    let mut j: usize = 0;
    while j < na && j < nb
        invariant
            0 <= j <= na,
            0 <= j <= nb,
            na == a@.len(),
            nb == b@.len(),
            lex_lt(a@, b@) == lex_lt(a@.skip(j as int), b@.skip(j as int)),
            lex_lt(b@, a@) == lex_lt(b@.skip(j as int), a@.skip(j as int)),
            (a@ == b@) == (na == nb && a@.skip(j as int) == b@.skip(j as int)),
        decreases na - j,
    {
        let ca = a.get_char(j);
        let cb = b.get_char(j);
        if (ca as u32) < (cb as u32) {
            return Rel::Lt;
        }
        if (cb as u32) < (ca as u32) {
            return Rel::Gt;
        }
        proof {
            assert(ca == cb);
            assert(a@.skip(j as int).drop_first() =~= a@.skip(j as int + 1));
            assert(b@.skip(j as int).drop_first() =~= b@.skip(j as int + 1));
            if a@.skip(j as int + 1) == b@.skip(j as int + 1) {
                assert forall|k: int|
                    0 <= k < a@.skip(j as int).len() implies a@.skip(j as int)[k] == b@.skip(
                    j as int,
                )[k] by {
                    if k > 0 {
                        assert(a@.skip(j as int + 1)[k - 1] == b@.skip(j as int + 1)[k - 1]);
                    }
                }
                if a@.skip(j as int).len() == b@.skip(j as int).len() {
                    assert(a@.skip(j as int) =~= b@.skip(j as int));
                }
            }
        }
        j = j + 1;
    }
    proof {
        assert(a@.skip(j as int).len() == na - j);
        assert(b@.skip(j as int).len() == nb - j);
    }
    if na == nb {
        proof {
            assert(a@.skip(j as int) =~= b@.skip(j as int));
            assert forall|k: int| 0 <= k < na implies a@[k] == b@[k] by {
                if k >= j {
                    assert(a@.skip(j as int)[k - j] == b@.skip(j as int)[k - j]);
                }
            }
            assert(a@ =~= b@);
        }
        Rel::Eq
    } else if na < nb {
        Rel::Lt
    } else {
        Rel::Gt
    }
}

/// Compares two fields: numeric part numerically, suffix lexicographically.
fn field_cmp(fa: &str, fb: &str) -> (r: Rel)
    ensures
        (r == Rel::Lt) == field_lt(fa@, fb@),
        (r == Rel::Gt) == field_lt(fb@, fa@),
        (r == Rel::Eq) == (!field_lt(fa@, fb@) && !field_lt(fb@, fa@)),
{
    let la = fa.unicode_len();
    let lb = fb.unicode_len();
    let da = scan_run(fa, 0, CharClass::Digit);
    let db = scan_run(fb, 0, CharClass::Digit);
    proof {
        lemma_run_end(fa@, 0, CharClass::Digit);
        lemma_run_end(fb@, 0, CharClass::Digit);
    }
    let na = fa.substring_char(0, da);
    let nb = fb.substring_char(0, db);
    let sa = fa.substring_char(da, la);
    let sb = fb.substring_char(db, lb);
    proof {
        assert(digits_only(na@));
        assert(digits_only(nb@));
        assert(na@ == fa@.subrange(0, clamped(run_end(fa@, 0, CharClass::Digit), 0, fa@.len() as int)));
        assert(sa@ == field_suffix(fa@));
        assert(sb@ == field_suffix(fb@));
    }
    let num_rel = cmp_numerals(&na, &nb);
    match num_rel {
        Rel::Lt => Rel::Lt,
        Rel::Gt => Rel::Gt,
        Rel::Eq => lex_cmp(&sa, &sb),
    }
}

/// Whether version `a` is at most version `b` in the version-aware order.
pub fn version_le(a: &str, b: &str) -> (r: bool)
    ensures
        r == spec_version_le(a@, b@),
{
    let la = a.unicode_len();
    let lb = b.unicode_len();
    let mut ia: usize = 0;
    let mut ib: usize = 0;
    loop
        invariant
            0 <= ia <= la,
            0 <= ib <= lb,
            la == a@.len(),
            lb == b@.len(),
            spec_version_le(a@, b@) == version_le_from(a@, ia as int, b@, ib as int),
        decreases la - ia,
    {
        let ea = scan_run(a, ia, CharClass::NonDot);
        let eb = scan_run(b, ib, CharClass::NonDot);
        proof {
            assert(field_end(a@, ia as int) == ea);
            assert(field_end(b@, ib as int) == eb);
        }
        let fa = a.substring_char(ia, ea);
        let fb = b.substring_char(ib, eb);
        match field_cmp(&fa, &fb) {
            Rel::Lt => {
                return true;
            },
            Rel::Gt => {
                return false;
            },
            Rel::Eq => {
                if ea >= la {
                    return true;
                }
                if eb >= lb {
                    return false;
                }
                ia = ea + 1;
                ib = eb + 1;
            },
        }
    }
}

/// Whether every field of `s` from position `i` on is a nonempty run of
/// digits.
pub open spec fn numeric_fields_from(s: Seq<char>, i: int) -> bool
    decreases s.len() - i when 0 <= i <= s.len()
{
    let e = field_end(s, i);
    e > i && digits_only(s.subrange(i, e)) && (e >= s.len() || numeric_fields_from(s, e + 1))
}

/// The numeric values of the fields of `s` from position `i` on.
pub open spec fn field_vals_from(s: Seq<char>, i: int) -> Seq<nat>
    decreases s.len() - i when 0 <= i <= s.len()
{
    let e = field_end(s, i);
    let v = dec_val(s.subrange(i, e));
    if e >= s.len() {
        seq![v]
    } else {
        seq![v] + field_vals_from(s, e + 1)
    }
}

/// Lexicographic order on sequences of naturals, a proper prefix ordered
/// before its extensions.
pub open spec fn nat_lex_le(x: Seq<nat>, y: Seq<nat>) -> bool
    decreases x.len(),
{
    if x.len() == 0 {
        true
    } else if y.len() == 0 {
        false
    } else if x[0] < y[0] {
        true
    } else if x[0] > y[0] {
        false
    } else {
        nat_lex_le(x.drop_first(), y.drop_first())
    }
}

proof fn lemma_numeric_field(s: Seq<char>, i: int)
    requires
        0 <= i <= s.len(),
        digits_only(s.subrange(i, field_end(s, i))),
    ensures
        field_num_val(s.subrange(i, field_end(s, i))) == dec_val(s.subrange(i, field_end(s, i))),
        field_suffix(s.subrange(i, field_end(s, i))) =~= Seq::<char>::empty(),
{
    let f = s.subrange(i, field_end(s, i));
    lemma_run_end(s, i, CharClass::NonDot);
    lemma_run_end(f, 0, CharClass::Digit);
    let d = run_end(f, 0, CharClass::Digit);
    if d < f.len() {
        assert(is_digit(f[d]));
        assert(false);
    }
    assert(clamped(d, 0, f.len() as int) == f.len());
    assert(f.subrange(0, f.len() as int) =~= f);
}

/// On versions whose fields are all numeric, the version order is the
/// lexicographic order of the fields' numeric values, field by field.
pub proof fn lemma_version_order_numeric_from(a: Seq<char>, ia: int, b: Seq<char>, ib: int)
    requires
        0 <= ia <= a.len(),
        0 <= ib <= b.len(),
        numeric_fields_from(a, ia),
        numeric_fields_from(b, ib),
    ensures
        version_le_from(a, ia, b, ib) == nat_lex_le(field_vals_from(a, ia), field_vals_from(b, ib)),
    decreases a.len() - ia,
{
    let ea = field_end(a, ia);
    let eb = field_end(b, ib);
    let fa = a.subrange(ia, ea);
    let fb = b.subrange(ib, eb);
    lemma_run_end(a, ia, CharClass::NonDot);
    lemma_run_end(b, ib, CharClass::NonDot);
    lemma_numeric_field(a, ia);
    lemma_numeric_field(b, ib);
    assert(!lex_lt(Seq::<char>::empty(), Seq::<char>::empty()));
    assert(field_lt(fa, fb) == (dec_val(fa) < dec_val(fb)));
    assert(field_lt(fb, fa) == (dec_val(fb) < dec_val(fa)));
    let va = field_vals_from(a, ia);
    let vb = field_vals_from(b, ib);
    assert(va[0] == dec_val(fa));
    assert(vb[0] == dec_val(fb));
    if dec_val(fa) == dec_val(fb) {
        if ea >= a.len() {
            assert(va =~= seq![dec_val(fa)]);
            assert(va.len() == 1);
            if eb >= b.len() {
                assert(vb =~= seq![dec_val(fb)]);
                assert(nat_lex_le(va.drop_first(), vb.drop_first())) by {
                    assert(va.drop_first().len() == 0);
                }
            } else {
                assert(nat_lex_le(va.drop_first(), vb.drop_first())) by {
                    assert(va.drop_first().len() == 0);
                }
            }
            assert(nat_lex_le(va, vb));
        } else if eb >= b.len() {
            assert(vb =~= seq![dec_val(fb)]);
            assert(va.drop_first() =~= field_vals_from(a, ea + 1));
            assert(va.drop_first().len() > 0);
            assert(vb.drop_first().len() == 0);
            assert(!nat_lex_le(va.drop_first(), vb.drop_first()));
            assert(!nat_lex_le(va, vb));
        } else {
            lemma_version_order_numeric_from(a, ea + 1, b, eb + 1);
            assert(va.drop_first() =~= field_vals_from(a, ea + 1));
            assert(vb.drop_first() =~= field_vals_from(b, eb + 1));
        }
    }
}

/// The version order on all-numeric versions agrees with natural numeric
/// ordering applied per dot-separated segment.
pub proof fn lemma_version_order_numeric(a: Seq<char>, b: Seq<char>)
    requires
        numeric_fields_from(a, 0),
        numeric_fields_from(b, 0),
    ensures
        spec_version_le(a, b) == nat_lex_le(field_vals_from(a, 0), field_vals_from(b, 0)),
{
    lemma_version_order_numeric_from(a, 0, b, 0);
}

/// Whether a version token begins at position `i`: a digit run, a dot, and
/// at least one more digit or dot.
pub open spec fn version_match_at(s: Seq<char>, i: int) -> bool {
    0 <= i < s.len() && is_digit(s[i]) && {
        let d = run_end(s, i, CharClass::Digit);
        d < s.len() && s[d] == '.' && d + 1 < s.len() && in_class(CharClass::DotDigit, s[d + 1])
    }
}

/// Where the version token that begins at `i` ends: after the digit run,
/// the dot, the following digit-or-dot run, and a trailing lowercase run.
pub open spec fn version_token_end(s: Seq<char>, i: int) -> int {
    let d = run_end(s, i, CharClass::Digit);
    let e = run_end(s, d + 1, CharClass::DotDigit);
    run_end(s, e, CharClass::Lower)
}

/// The first position at or after `i` where a version token begins, or the
/// length of `s` if there is none.
pub open spec fn version_start_from(s: Seq<char>, i: int) -> int
    decreases s.len() - i when 0 <= i <= s.len()
{
    if i >= s.len() {
        i
    } else if version_match_at(s, i) {
        i
    } else {
        version_start_from(s, i + 1)
    }
}

pub open spec fn has_version_token(s: Seq<char>) -> bool {
    version_start_from(s, 0) < s.len()
}

/// The leftmost version token of `s`.
pub open spec fn version_token(s: Seq<char>) -> Seq<char> {
    let i = version_start_from(s, 0);
    s.subrange(i, version_token_end(s, i))
}

/// Extracts the leftmost version token of `line`, if any.
pub fn extract_version_token(line: &str) -> (r: Option<String>)
    ensures
        r is Some <==> has_version_token(line@),
        r is Some ==> r.unwrap()@ == version_token(line@),
{
    let n = line.unicode_len();
    let mut i: usize = 0;
    while i < n
        invariant
            0 <= i <= n,
            n == line@.len(),
            version_start_from(line@, i as int) == version_start_from(line@, 0),
        decreases n - i,
    {
        if class_check(CharClass::Digit, line.get_char(i)) {
            let d = scan_run(line, i, CharClass::Digit);
            if d < n && line.get_char(d) == '.' && d + 1 < n && class_check(
                CharClass::DotDigit,
                line.get_char(d + 1),
            ) {
                assert(version_match_at(line@, i as int));
                let e1 = scan_run(line, d + 1, CharClass::DotDigit);
                let e = scan_run(line, e1, CharClass::Lower);
                proof {
                    lemma_run_end(line@, i as int, CharClass::Digit);
                    lemma_run_end(line@, d as int + 1, CharClass::DotDigit);
                    lemma_run_end(line@, e1 as int, CharClass::Lower);
                    assert(version_token_end(line@, i as int) == e);
                }
                let tok = line.substring_char(i, e);
                return Some(tok.to_owned());
            }
        }
        i = i + 1;
    }
    None
}

/// `l` with one trailing carriage return removed, as `str::lines` does.
pub open spec fn strip_cr(l: Seq<char>) -> Seq<char> {
    if l.len() > 0 && l.last() == '\r' {
        l.drop_last()
    } else {
        l
    }
}

/// The lines of `s` from position `i` on: the segments between newlines,
/// each with a trailing carriage return removed, with no empty line for a
/// trailing newline.
pub open spec fn split_lines_from(s: Seq<char>, i: int) -> Seq<Seq<char>>
    decreases s.len() - i when 0 <= i <= s.len()
{
    if i >= s.len() {
        Seq::empty()
    } else {
        let e = clamped(run_end(s, i, CharClass::NonNewline), i, s.len() as int);
        let line = strip_cr(s.subrange(i, e));
        if e >= s.len() {
            seq![line]
        } else {
            seq![line] + split_lines_from(s, e + 1)
        }
    }
}

/// The lines of `s`, as `str::lines` yields them.
pub open spec fn spec_lines(s: Seq<char>) -> Seq<Seq<char>> {
    split_lines_from(s, 0)
}

/// Splits `s` into its lines.
pub fn split_lines(s: &str) -> (r: Vec<String>)
    ensures
        r@.map_values(|l: String| l@) == spec_lines(s@),
{
    let n = s.unicode_len();
    let mut r: Vec<String> = Vec::new();
    let mut i: usize = 0;
    proof {
        assert(r@.map_values(|l: String| l@) =~= Seq::<Seq<char>>::empty());
    }
    while i < n
        invariant
            0 <= i <= n,
            n == s@.len(),
            spec_lines(s@) == r@.map_values(|l: String| l@) + split_lines_from(s@, i as int),
        decreases n - i,
    {
        let e = scan_run(s, i, CharClass::NonNewline);
        proof {
            assert(clamped(run_end(s@, i as int, CharClass::NonNewline), i as int, s@.len() as int)
                == e);
        }
        let raw = s.substring_char(i, e);
        let stripped = if raw.unicode_len() > 0 && raw.get_char(raw.unicode_len() - 1) == '\r' {
            raw.substring_char(0, raw.unicode_len() - 1)
        } else {
            raw
        };
        proof {
            if raw@.len() > 0 && raw@.last() == '\r' {
                assert(raw@.subrange(0, raw@.len() - 1) =~= raw@.drop_last());
            }
            assert(stripped@ == strip_cr(s@.subrange(i as int, e as int)));
        }
        let line = stripped.to_owned();
        let ghost old_r = r@;
        r.push(line);
        proof {
            assert(r@.map_values(|l: String| l@) =~= old_r.map_values(|l: String| l@).push(
                stripped@,
            ));
        }
        if e >= n {
            i = n;
            proof {
                assert(split_lines_from(s@, n as int) =~= Seq::<Seq<char>>::empty());
                assert(r@.map_values(|l: String| l@) + split_lines_from(s@, n as int) =~= r@
                    .map_values(|l: String| l@));
            }
        } else {
            i = e + 1;
            proof {
                assert(old_r.map_values(|l: String| l@) + (seq![stripped@] + split_lines_from(
                    s@,
                    e as int + 1,
                )) =~= r@.map_values(|l: String| l@) + split_lines_from(s@, e as int + 1));
            }
        }
    }
    proof {
        assert(split_lines_from(s@, i as int) =~= Seq::<Seq<char>>::empty());
        assert(r@.map_values(|l: String| l@) + split_lines_from(s@, i as int) =~= r@.map_values(
            |l: String| l@,
        ));
    }
    r
}

/// The first version token among the given lines, or empty if none holds
/// one.
pub open spec fn first_version_in_lines(ls: Seq<Seq<char>>) -> Seq<char>
    decreases ls.len(),
{
    if ls.len() == 0 {
        Seq::empty()
    } else if has_version_token(ls[0]) {
        version_token(ls[0])
    } else {
        first_version_in_lines(ls.drop_first())
    }
}

/// The version a tool reports on `out`: the first version token found
/// scanning the output line by line, or empty if none occurs.
pub open spec fn observed_version(out: Seq<char>) -> Seq<char> {
    first_version_in_lines(spec_lines(out))
}

/// Extracts the version a tool reports from its captured output.
pub fn extract_observed_version(out: &str) -> (r: String)
    ensures
        r@ == observed_version(out@),
{
    let lines = split_lines(out);
    let ghost ls = lines@.map_values(|l: String| l@);
    let n = lines.len();
    let mut k: usize = 0;
    proof {
        assert(ls.skip(0) =~= ls);
    }
    while k < n
        invariant
            0 <= k <= n,
            n == lines@.len(),
            ls == lines@.map_values(|l: String| l@),
            observed_version(out@) == first_version_in_lines(ls.skip(k as int)),
        decreases n - k,
    {
        let line = &lines[k];
        match extract_version_token(line.as_str()) {
            Some(tok) => {
                proof {
                    assert(ls.skip(k as int)[0] == line@);
                }
                return tok;
            },
            None => {
                proof {
                    assert(ls.skip(k as int)[0] == line@);
                    assert(ls.skip(k as int).drop_first() =~= ls.skip(k as int + 1));
                }
            },
        }
        k = k + 1;
    }
    proof {
        assert(ls.skip(k as int) =~= Seq::<Seq<char>>::empty());
    }
    String::new()
}

} // verus!
