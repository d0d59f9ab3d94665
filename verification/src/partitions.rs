//! The interactive partition selector's logic: recognising device paths in
//! listing lines, filtering a listing, and driving the bounded selection
//! dialogue over the operator's answers.
//!
//! The functions here are pure: the listing lines and the operator's input
//! lines come in as values, and the selection (or the reason none was made)
//! comes out.  Running the listing command and reading the console happen
//! outside the crate.

use crate::text::CharClass;
use crate::text::class_check;
use crate::text::dec_val;
use crate::text::in_class;
use crate::text::is_usize_numeral;
use crate::text::numeral_body;
use crate::text::parse_usize;
use crate::text::run_end;
use crate::text::scan_run;
use crate::text::append_decimal;
use crate::text::dec_str;
use vstd::prelude::*;

verus! {

/// Whether a device path begins at position `i`: the five characters
/// `/dev/` followed by at least one lowercase letter or digit.
pub open spec fn dev_match_at(s: Seq<char>, i: int) -> bool {
    0 <= i && i + 5 < s.len() && s[i] == '/' && s[i + 1] == 'd' && s[i + 2] == 'e' && s[i + 3]
        == 'v' && s[i + 4] == '/' && in_class(CharClass::DevChar, s[i + 5])
}

/// Where the device path that begins at `i` ends: after the run of
/// lowercase letters and digits that follows `/dev/`.
pub open spec fn dev_token_end(s: Seq<char>, i: int) -> int {
    run_end(s, i + 5, CharClass::DevChar)
}

/// Whether a partition entry occurs at `i`: a device path followed by a
/// space, the shape a disk listing gives its device column.
pub open spec fn dev_entry_at(s: Seq<char>, i: int) -> bool {
    dev_match_at(s, i) && dev_token_end(s, i) < s.len() && s[dev_token_end(s, i)] == ' '
}

/// Whether the line holds a partition entry anywhere.
pub open spec fn has_dev_entry(s: Seq<char>) -> bool {
    exists|i: int| dev_entry_at(s, i)
}

/// The first position at or after `i` where a device path begins, or the
/// length of `s` if there is none.
pub open spec fn dev_start_from(s: Seq<char>, i: int) -> int
    decreases s.len() - i when 0 <= i <= s.len()
{
    if i >= s.len() {
        i
    } else if dev_match_at(s, i) {
        i
    } else {
        dev_start_from(s, i + 1)
    }
}

pub open spec fn has_dev_path(s: Seq<char>) -> bool {
    dev_start_from(s, 0) < s.len()
}

/// The leftmost device path of `s`.
pub open spec fn dev_path(s: Seq<char>) -> Seq<char> {
    let i = dev_start_from(s, 0);
    s.subrange(i, dev_token_end(s, i))
}

/// An entry anywhere yields a path: the entry position witnesses it.
pub proof fn lemma_entry_has_path(s: Seq<char>)
    requires
        has_dev_entry(s),
    ensures
        has_dev_path(s),
{
    let w = choose|i: int| dev_entry_at(s, i);
    lemma_dev_start_found(s, 0, w);
}

/// Extraction is exact: when a device path stands at `i` and none begins
/// earlier, the extracted path is exactly that substring, whatever text
/// stands around it.
pub proof fn lemma_extraction_exact(s: Seq<char>, i: int)
    requires
        dev_match_at(s, i),
        forall|j: int| 0 <= j < i ==> !dev_match_at(s, j),
    ensures
        has_dev_path(s),
        dev_path(s) == s.subrange(i, dev_token_end(s, i)),
{
    lemma_dev_start_found(s, 0, i);
    lemma_dev_start_at_least(s, 0, i);
}

/// A selected path is never empty: every extracted device path holds at
/// least `/dev/` and one name character.
pub proof fn lemma_dev_path_nonempty(s: Seq<char>)
    requires
        has_dev_path(s),
    ensures
        dev_path(s).len() >= 6,
{
    lemma_dev_start_is_match(s, 0);
    let i = dev_start_from(s, 0);
    crate::text::lemma_run_end(s, i + 6, CharClass::DevChar);
    assert(run_end(s, i + 5, CharClass::DevChar) == run_end(s, i + 6, CharClass::DevChar));
}

proof fn lemma_dev_start_is_match(s: Seq<char>, k: int)
    requires
        0 <= k <= s.len(),
        dev_start_from(s, k) < s.len(),
    ensures
        dev_match_at(s, dev_start_from(s, k)),
    decreases s.len() - k,
{
    if k < s.len() && !dev_match_at(s, k) {
        lemma_dev_start_is_match(s, k + 1);
    }
}

proof fn lemma_dev_start_lb(s: Seq<char>, k: int)
    requires
        0 <= k <= s.len(),
    ensures
        dev_start_from(s, k) >= k,
    decreases s.len() - k,
{
    if k < s.len() && !dev_match_at(s, k) {
        lemma_dev_start_lb(s, k + 1);
    }
}

proof fn lemma_dev_start_at_least(s: Seq<char>, k: int, i: int)
    requires
        0 <= k <= i,
        i < s.len(),
        forall|j: int| k <= j < i ==> !dev_match_at(s, j),
    ensures
        dev_start_from(s, k) >= i,
    decreases i - k,
{
    if k < i {
        lemma_dev_start_at_least(s, k + 1, i);
    } else {
        lemma_dev_start_lb(s, k);
    }
}

proof fn lemma_dev_start_found(s: Seq<char>, i: int, w: int)
    requires
        0 <= i <= s.len(),
        i <= w,
        dev_match_at(s, w),
    ensures
        dev_start_from(s, i) <= w,
    decreases s.len() - i,
{
    if i < s.len() && !dev_match_at(s, i) && i < w {
        lemma_dev_start_found(s, i + 1, w);
    }
}

/// Extracts the leftmost device path of `line`, if any.
pub fn extract_device_path(line: &str) -> (r: Option<String>)
    ensures
        r is Some <==> has_dev_path(line@),
        r is Some ==> r.unwrap()@ == dev_path(line@),
{
    let n = line.unicode_len();
    let mut i: usize = 0;
    while i < n
        invariant
            0 <= i <= n,
            n == line@.len(),
            dev_start_from(line@, i as int) == dev_start_from(line@, 0),
        decreases n - i,
    {
        if n - i > 5 && line.get_char(i) == '/' && line.get_char(i + 1) == 'd' && line.get_char(
            i + 2,
        ) == 'e' && line.get_char(i + 3) == 'v' && line.get_char(i + 4) == '/' && class_check(
            CharClass::DevChar,
            line.get_char(i + 5),
        ) {
            assert(dev_match_at(line@, i as int));
            let e = scan_run(line, i + 5, CharClass::DevChar);
            let tok = line.substring_char(i, e);
            return Some(tok.to_owned());
        }
        proof {
            assert(!dev_match_at(line@, i as int));
        }
        i = i + 1;
    }
    None
}

/// Whether `line` holds a partition entry: a device path followed by a
/// space.
pub fn line_has_dev_entry(line: &str) -> (r: bool)
    ensures
        r == has_dev_entry(line@),
{
    let n = line.unicode_len();
    let mut i: usize = 0;
    while i < n
        invariant
            0 <= i <= n,
            n == line@.len(),
            forall|p: int| 0 <= p < i ==> !dev_entry_at(line@, p),
        decreases n - i,
    {
        if n - i > 5 && line.get_char(i) == '/' && line.get_char(i + 1) == 'd' && line.get_char(
            i + 2,
        ) == 'e' && line.get_char(i + 3) == 'v' && line.get_char(i + 4) == '/' && class_check(
            CharClass::DevChar,
            line.get_char(i + 5),
        ) {
            let e = scan_run(line, i + 5, CharClass::DevChar);
            if e < n && line.get_char(e) == ' ' {
                proof {
                    assert(dev_entry_at(line@, i as int));
                }
                return true;
            }
        }
        proof {
            assert(!dev_entry_at(line@, i as int));
        }
        i = i + 1;
    }
    proof {
        assert forall|p: int| !dev_entry_at(line@, p) by {
            if 0 <= p < n {
                assert(p < i);
            }
        }
    }
    false
}

/// The lines among `ls` that hold a partition entry, in order.
pub open spec fn dev_entry_lines(ls: Seq<Seq<char>>) -> Seq<Seq<char>>
    decreases ls.len(),
{
    if ls.len() == 0 {
        Seq::empty()
    } else {
        let rest = dev_entry_lines(ls.drop_first());
        if has_dev_entry(ls[0]) {
            seq![ls[0]] + rest
        } else {
            rest
        }
    }
}

/// Every line kept by the filter holds a partition entry.
pub proof fn lemma_dev_entry_lines_sound(ls: Seq<Seq<char>>)
    ensures
        forall|k: int|
            0 <= k < dev_entry_lines(ls).len() ==> has_dev_entry(#[trigger] dev_entry_lines(ls)[k]),
    decreases ls.len(),
{
    if ls.len() > 0 {
        lemma_dev_entry_lines_sound(ls.drop_first());
        let rest = dev_entry_lines(ls.drop_first());
        assert forall|k: int|
            0 <= k < dev_entry_lines(ls).len() implies has_dev_entry(
            #[trigger] dev_entry_lines(ls)[k],
        ) by {
            if has_dev_entry(ls[0]) {
                if k > 0 {
                    assert(dev_entry_lines(ls)[k] == rest[k - 1]);
                }
            } else {
                assert(dev_entry_lines(ls)[k] == rest[k]);
            }
        }
    }
}

/// Keeps the listing lines that hold a partition entry, in order.
pub fn filter_partition_lines(lines: &Vec<String>) -> (r: Vec<String>)
    ensures
        r@.map_values(|l: String| l@) == dev_entry_lines(lines@.map_values(|l: String| l@)),
{
    let ghost all = lines@.map_values(|l: String| l@);
    let n = lines.len();
    let mut r: Vec<String> = Vec::new();
    let mut i: usize = 0;
    proof {
        assert(all.skip(0) =~= all);
        assert(r@.map_values(|l: String| l@) =~= Seq::<Seq<char>>::empty());
        assert(Seq::<Seq<char>>::empty() + dev_entry_lines(all) =~= dev_entry_lines(all));
    }
    while i < n
        invariant
            0 <= i <= n,
            n == lines@.len(),
            all == lines@.map_values(|l: String| l@),
            dev_entry_lines(all) == r@.map_values(|l: String| l@) + dev_entry_lines(
                all.skip(i as int),
            ),
        decreases n - i,
    {
        let line = &lines[i];
        let ghost rv = r@.map_values(|l: String| l@);
        proof {
            assert(all.skip(i as int)[0] == line@);
            assert(all.skip(i as int).drop_first() =~= all.skip(i as int + 1));
        }
        if line_has_dev_entry(line.as_str()) {
            r.push(line.clone());
            proof {
                assert(r@.map_values(|l: String| l@) =~= rv.push(line@));
                assert(rv + (seq![line@] + dev_entry_lines(all.skip(i as int + 1))) =~= rv.push(
                    line@,
                ) + dev_entry_lines(all.skip(i as int + 1)));
            }
        }
        i = i + 1;
    }
    proof {
        assert(all.skip(n as int) =~= Seq::<Seq<char>>::empty());
        assert(r@.map_values(|l: String| l@) + Seq::<Seq<char>>::empty() =~= r@.map_values(
            |l: String| l@,
        ));
    }
    r
}

/// The menu line for entry number `num` holding `line`: the number, a
/// colon and a space, then the line itself.
pub open spec fn menu_line(num: nat, line: Seq<char>) -> Seq<char> {
    dec_str(num) + ": "@ + line
}

/// Renders the 1-indexed selection menu for the given partition lines.
pub fn render_menu(partitions: &Vec<String>) -> (r: Vec<String>)
    requires
        partitions@.len() < usize::MAX,
    ensures
        r@.len() == partitions@.len(),
        forall|k: int|
            0 <= k < r@.len() ==> r@[k]@ == menu_line((k + 1) as nat, partitions@[k]@),
{
    let n = partitions.len();
    let mut r: Vec<String> = Vec::new();
    let mut i: usize = 0;
    while i < n
        invariant
            0 <= i <= n,
            n == partitions@.len(),
            n < usize::MAX,
            r@.len() == i,
            forall|k: int|
                0 <= k < i ==> r@[k]@ == menu_line((k + 1) as nat, partitions@[k]@),
        decreases n - i,
    {
        let mut s = String::new();
        append_decimal(&mut s, i + 1);
        s.append(": ");
        s.append(partitions[i].as_str());
        r.push(s);
        i = i + 1;
    }
    r
}

/// The two device paths a completed selection names.
///
/// A value of this type exists only after both selections were made from
/// one listing snapshot and the operator confirmed them; its paths are the
/// extracted `/dev/...` tokens and are never empty.
#[derive(Debug)]
pub struct SelectedPartitions {
    pub boot: String,
    pub main: String,
}

/// Prepares a raw listing: keeps the lines that hold a partition entry,
/// and reports the fatal condition when none is left.
pub fn prepare_partition_listing(raw_lines: &Vec<String>) -> (r: Result<Vec<String>, String>)
    ensures
        match r {
            Ok(parts) => dev_entry_lines(raw_lines@.map_values(|l: String| l@)).len() > 0
                && parts@.map_values(|l: String| l@) == dev_entry_lines(
                raw_lines@.map_values(|l: String| l@),
            ) && (forall|k: int|
                0 <= k < parts@.len() ==> has_dev_path(#[trigger] parts@[k]@)),
            Err(m) => dev_entry_lines(raw_lines@.map_values(|l: String| l@)).len() == 0 && m@
                == "No partitions available."@,
        },
{
    let parts = filter_partition_lines(raw_lines);
    if parts.is_empty() {
        Err("No partitions available.".to_owned())
    } else {
        proof {
            let all = raw_lines@.map_values(|l: String| l@);
            lemma_dev_entry_lines_sound(all);
            assert forall|k: int| 0 <= k < parts@.len() implies has_dev_path(
                #[trigger] parts@[k]@,
            ) by {
                assert(parts@.map_values(|l: String| l@)[k] == parts@[k]@);
                assert(has_dev_entry(dev_entry_lines(all)[k]));
                lemma_entry_has_path(parts@[k]@);
            }
        }
        Ok(parts)
    }
}

/// The literal answer that cancels a selection.
pub open spec fn is_exit(s: Seq<char>) -> bool {
    s == "exit"@
}

/// An answer that selects a partition: a numeral naming a 1-indexed entry
/// of the listing.
pub open spec fn valid_index(s: Seq<char>, n: nat) -> bool {
    is_usize_numeral(s) && 1 <= dec_val(numeral_body(s)) && dec_val(numeral_body(s)) <= n
}

/// What one answer at a selection prompt leads to.
#[derive(Debug)]
pub enum SelectionStep {
    /// The operator typed `exit`.
    Cancelled,
    /// The operator named a listed entry; the entry's device path.
    Chosen(String),
    /// Anything else: rejected, the prompt repeats.
    Rejected,
}

/// Decides one answer at a selection prompt: `exit` cancels, a numeral
/// within the listing chooses that entry's device path, anything else is
/// rejected.
pub fn select_step(partitions: &Vec<String>, input: &str) -> (r: SelectionStep)
    requires
        forall|k: int| 0 <= k < partitions@.len() ==> has_dev_path(#[trigger] partitions@[k]@),
    ensures
        (r is Cancelled) <==> is_exit(input@),
        (r is Chosen) <==> (!is_exit(input@) && valid_index(input@, partitions@.len() as nat)),
        r is Chosen ==> r->Chosen_0@ == dev_path(
            partitions@[dec_val(numeral_body(input@)) - 1]@,
        ),
{
    if crate::text::str_eq(input, "exit") {
        return SelectionStep::Cancelled;
    }
    let np = partitions.len();
    proof {
        assert(np as nat == partitions@.len() as nat);
    }
    match parse_usize(input) {
        Some(num) => {
            if num >= 1 && num <= np {
                match extract_device_path(partitions[num - 1].as_str()) {
                    Some(p) => SelectionStep::Chosen(p),
                    None => {
                        proof {
                            assert(false);
                        }
                        SelectionStep::Rejected
                    },
                }
            } else {
                SelectionStep::Rejected
            }
        },
        None => SelectionStep::Rejected,
    }
}

/// The index of the first answer at or after `k` that resolves a selection
/// prompt (cancels or chooses), or the number of answers if none does.
pub open spec fn selection_resolution(n: nat, inputs: Seq<Seq<char>>, k: int) -> int
    decreases inputs.len() - k when 0 <= k <= inputs.len()
{
    if k >= inputs.len() {
        k
    } else if is_exit(inputs[k]) || valid_index(inputs[k], n) {
        k
    } else {
        selection_resolution(n, inputs, k + 1)
    }
}

/// How a selection prompt ends when driven by a script of answers.
#[derive(Debug)]
pub enum SelectOutcome {
    /// Cancelled by `exit`; the index of the next unread answer.
    Cancelled(usize),
    /// A device path was chosen; the index of the next unread answer.
    Chosen(String, usize),
    /// The script ran out before any answer resolved the prompt.
    NeedsInput,
}

/// Drives one selection prompt over `inputs`, starting at `start`:
/// rejected answers repeat the prompt, `exit` cancels, a listed numeral
/// chooses.
pub fn select_partition(partitions: &Vec<String>, inputs: &Vec<String>, start: usize) -> (r:
    SelectOutcome)
    requires
        forall|k: int| 0 <= k < partitions@.len() ==> has_dev_path(#[trigger] partitions@[k]@),
        start <= inputs@.len(),
    ensures
        ({
            let iv = inputs@.map_values(|l: String| l@);
            let n = partitions@.len() as nat;
            let m = selection_resolution(n, iv, start as int);
            &&& ((r is NeedsInput) <==> m >= iv.len())
            &&& ((r is Cancelled) <==> (m < iv.len() && is_exit(iv[m])))
            &&& (r is Cancelled ==> r->Cancelled_0 == m + 1)
            &&& ((r is Chosen) <==> (m < iv.len() && !is_exit(iv[m]) && valid_index(iv[m], n)))
            &&& (r is Chosen ==> r->Chosen_0@ == dev_path(
                partitions@[dec_val(numeral_body(iv[m])) - 1]@,
            ) && r->Chosen_1 == m + 1)
        }),
{
    let ghost iv = inputs@.map_values(|l: String| l@);
    let ghost n_spec = partitions@.len() as nat;
    let total = inputs.len();
    let mut k = start;
    while k < total
        invariant
            start <= k <= total,
            total == inputs@.len(),
            iv == inputs@.map_values(|l: String| l@),
            n_spec == partitions@.len() as nat,
            forall|q: int| 0 <= q < partitions@.len() ==> has_dev_path(#[trigger] partitions@[q]@),
            selection_resolution(n_spec, iv, k as int) == selection_resolution(
                n_spec,
                iv,
                start as int,
            ),
        decreases total - k,
    {
        let input = &inputs[k];
        proof {
            assert(iv[k as int] == input@);
        }
        match select_step(partitions, input.as_str()) {
            SelectionStep::Cancelled => {
                return SelectOutcome::Cancelled(k + 1);
            },
            SelectionStep::Chosen(p) => {
                return SelectOutcome::Chosen(p, k + 1);
            },
            SelectionStep::Rejected => {},
        }
        k = k + 1;
    }
    SelectOutcome::NeedsInput
}

/// The confirming answer: exactly `y`, in either case.
pub open spec fn is_affirmative(s: Seq<char>) -> bool {
    s == seq!['y'] || s == seq!['Y']
}

/// Decides the confirmation prompt: only a lone `y` or `Y` confirms; any
/// other answer declines.
pub fn confirm_selection(input: &str) -> (r: bool)
    ensures
        r == is_affirmative(input@),
{
    let n = input.unicode_len();
    if n == 1 {
        let c = input.get_char(0);
        proof {
            if c == 'y' {
                assert(input@ =~= seq!['y']);
            }
            if c == 'Y' {
                assert(input@ =~= seq!['Y']);
            }
            if input@ == seq!['y'] || input@ == seq!['Y'] {
                assert(input@[0] == c);
            }
        }
        c == 'y' || c == 'Y'
    } else {
        proof {
            assert(input@.len() != 1);
            assert(!is_affirmative(input@));
        }
        false
    }
}

/// How the whole selection dialogue ends when driven by a script of
/// answers.
#[derive(Debug)]
pub enum SessionResult {
    /// Both selections made and confirmed.
    Completed(SelectedPartitions),
    /// `exit` at the boot prompt; the main prompt was never reached.
    CancelledBoot,
    /// `exit` at the main prompt.
    CancelledMain,
    /// The confirmation was declined; no selection is produced.
    Declined,
    /// The script ran out before the dialogue ended.
    NeedsInput,
}

/// What `select_all_patitions` must return for the given listing and
/// script: boot is selected first, then main, then one answer confirms;
/// cancelling either selection or declining the confirmation yields no
/// selection.
pub open spec fn session_spec(pv: Seq<Seq<char>>, iv: Seq<Seq<char>>, r: SessionResult) -> bool {
    let n = pv.len() as nat;
    let m1 = selection_resolution(n, iv, 0);
    if m1 >= iv.len() {
        r is NeedsInput
    } else if is_exit(iv[m1]) {
        r is CancelledBoot
    } else {
        let boot = dev_path(pv[dec_val(numeral_body(iv[m1])) - 1]);
        let m2 = selection_resolution(n, iv, m1 + 1);
        if m2 >= iv.len() {
            r is NeedsInput
        } else if is_exit(iv[m2]) {
            r is CancelledMain
        } else {
            let main_path = dev_path(pv[dec_val(numeral_body(iv[m2])) - 1]);
            if m2 + 1 >= iv.len() {
                r is NeedsInput
            } else if is_affirmative(iv[m2 + 1]) {
                r is Completed && r->Completed_0.boot@ == boot && r->Completed_0.main@
                    == main_path
            } else {
                r is Declined
            }
        }
    }
}

/// Cancelling at the boot prompt ends the dialogue at once: when the
/// first resolving answer is `exit`, every result the contract admits is
/// `CancelledBoot`, whatever answers follow — the main prompt is never
/// reached.
pub proof fn lemma_cancel_at_boot(pv: Seq<Seq<char>>, iv: Seq<Seq<char>>, r: SessionResult)
    requires
        session_spec(pv, iv, r),
        iv.len() > 0,
        is_exit(iv[0]),
    ensures
        r is CancelledBoot,
{
    assert(selection_resolution(pv.len() as nat, iv, 0) == 0);
}

/// Runs the whole selection dialogue over a listing and a script of
/// answers: select the boot partition, select the main partition, print
/// nothing here, and confirm.  Only an explicit `y` yields a selection.
pub fn select_all_patitions(partitions: &Vec<String>, inputs: &Vec<String>) -> (r: SessionResult)
    requires
        forall|k: int| 0 <= k < partitions@.len() ==> has_dev_path(#[trigger] partitions@[k]@),
    ensures
        session_spec(
            partitions@.map_values(|l: String| l@),
            inputs@.map_values(|l: String| l@),
            r,
        ),
{
    let ghost pv = partitions@.map_values(|l: String| l@);
    let ghost iv = inputs@.map_values(|l: String| l@);
    let boot: String;
    let after_boot: usize;
    match select_partition(partitions, inputs, 0) {
        SelectOutcome::NeedsInput => {
            return SessionResult::NeedsInput;
        },
        SelectOutcome::Cancelled(_next) => {
            return SessionResult::CancelledBoot;
        },
        SelectOutcome::Chosen(p, next) => {
            boot = p;
            after_boot = next;
        },
    }
    let main_path: String;
    let after_main: usize;
    match select_partition(partitions, inputs, after_boot) {
        SelectOutcome::NeedsInput => {
            return SessionResult::NeedsInput;
        },
        SelectOutcome::Cancelled(_next) => {
            return SessionResult::CancelledMain;
        },
        SelectOutcome::Chosen(p, next) => {
            main_path = p;
            after_main = next;
        },
    }
    if after_main >= inputs.len() {
        return SessionResult::NeedsInput;
    }
    let confirm_input = &inputs[after_main];
    proof {
        assert(iv[after_main as int] == confirm_input@);
    }
    if confirm_selection(confirm_input.as_str()) {
        SessionResult::Completed(SelectedPartitions { boot, main: main_path })
    } else {
        SessionResult::Declined
    }
}

} // verus!
