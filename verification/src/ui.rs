//! What is shown to the user.
use vstd::prelude::*;

use crate::path;
use crate::text;

verus! {

/// A message, and how it is shown.
#[derive(Debug)]
pub enum Notice {
    Info(String),
    Success(String),
    Warning(String),
    Error(String),
    Plain(String),
}

/// A message with its text taken as a sequence of characters.
pub enum NoticeView {
    Info(Seq<char>),
    Success(Seq<char>),
    Warning(Seq<char>),
    Error(Seq<char>),
    Plain(Seq<char>),
}

impl View for Notice {
    type V = NoticeView;

    open spec fn view(&self) -> NoticeView {
        match self {
            Notice::Info(m) => NoticeView::Info(m@),
            Notice::Success(m) => NoticeView::Success(m@),
            Notice::Warning(m) => NoticeView::Warning(m@),
            Notice::Error(m) => NoticeView::Error(m@),
            Notice::Plain(m) => NoticeView::Plain(m@),
        }
    }
}

/// The messages of a list.
pub open spec fn notices(v: Seq<Notice>) -> Seq<NoticeView> {
    v.map_values(|n: Notice| n@)
}

// ---------------------------------------------------------------------------
// Numbers

/// Digits in groups of three from the right, with commas between the groups.
pub open spec fn grouped(digits: Seq<char>) -> Seq<char>
    decreases digits.len(),
{
    if digits.len() <= 3 {
        digits
    } else {
        grouped(digits.take(digits.len() - 3)) + ","@ + digits.skip(digits.len() - 3)
    }
}

fn group(c: &Vec<char>, end: usize) -> (r: String)
    requires
        end <= c@.len(),
    ensures
        r@ == grouped(c@.take(end as int)),
    decreases end,
{
    let ghost part = c@.take(end as int);
    if end <= 3 {
        assert(part =~= c@.subrange(0, end as int));
        text::range_string(c, 0, end)
    } else {
        assert(part.take(part.len() - 3) =~= c@.take(end - 3));
        assert(part.skip(part.len() - 3) =~= c@.subrange(end - 3, end as int));
        text::join3(&group(c, end - 3), ",", &text::range_string(c, end - 3, end))
    }
}

/// A number of bytes with commas between thousands.
pub fn format_bytes(bytes: u64) -> (r: String)
    ensures
        r@ == grouped(text::decimal_of(bytes as nat)),
{
    let c = text::to_chars(&text::decimal(bytes));
    assert(c@.take(c@.len() as int) =~= c@);
    group(&c, c.len())
}

/// Text without its commas.
pub open spec fn without_commas(s: Seq<char>) -> Seq<char> {
    text::replaced(s, ',', ""@)
}

/// Replacing goes through the parts of a text one by one.
proof fn replaced_in_parts(a: Seq<char>, b: Seq<char>, ch: char, with: Seq<char>)
    ensures
        text::replaced(a + b, ch, with) == text::replaced(a, ch, with) + text::replaced(b, ch, with),
    decreases b.len(),
{
    if b.len() == 0 {
        assert(a + b =~= a);
        assert(text::replaced(b, ch, with) =~= seq![]);
        assert(text::replaced(a, ch, with) + Seq::<char>::empty() =~= text::replaced(a, ch, with));
    } else {
        replaced_in_parts(a, b.drop_last(), ch, with);
        assert((a + b).drop_last() =~= a + b.drop_last());
        assert((a + b).last() == b.last());
        let tail = if b.last() == ch {
            with
        } else {
            seq![b.last()]
        };
        assert(text::replaced(a, ch, with) + text::replaced(b.drop_last(), ch, with) + tail
            =~= text::replaced(a, ch, with) + (text::replaced(b.drop_last(), ch, with) + tail));
    }
}

/// Text without a character is unchanged when that character is replaced.
proof fn replaced_nothing(s: Seq<char>, ch: char, with: Seq<char>)
    requires
        forall|i: int| 0 <= i < s.len() ==> #[trigger] s[i] != ch,
    ensures
        text::replaced(s, ch, with) == s,
    decreases s.len(),
{
    if s.len() > 0 {
        let init = s.drop_last();
        assert forall|i: int| 0 <= i < init.len() implies #[trigger] init[i] != ch by {
            assert(init[i] == s[i]);
        }
        replaced_nothing(init, ch, with);
        assert(s.last() == s[s.len() - 1]);
        assert(s =~= init + seq![s.last()]);
    }
}

/// Digits in groups are the digits once the commas are taken out.
pub proof fn grouping_only_adds_commas(digits: Seq<char>)
    requires
        forall|i: int| 0 <= i < digits.len() ==> text::is_digit(#[trigger] digits[i]),
    ensures
        without_commas(grouped(digits)) == digits,
    decreases digits.len(),
{
    reveal_strlit(",");
    reveal_strlit("");
    if digits.len() <= 3 {
        replaced_nothing(digits, ',', ""@);
    } else {
        let a = digits.take(digits.len() - 3);
        let b = digits.skip(digits.len() - 3);
        assert forall|i: int| 0 <= i < a.len() implies text::is_digit(#[trigger] a[i]) by {
            assert(a[i] == digits[i]);
        }
        assert forall|i: int| 0 <= i < b.len() implies #[trigger] b[i] != ',' by {
            assert(b[i] == digits[digits.len() - 3 + i]);
        }
        grouping_only_adds_commas(a);
        replaced_nothing(b, ',', ""@);
        replaced_in_parts(grouped(a) + ","@, b, ',', ""@);
        replaced_in_parts(grouped(a), ","@, ',', ""@);
        assert(","@.drop_last() =~= seq![]);
        assert(text::replaced(","@.drop_last(), ',', ""@) =~= seq![]);
        assert(text::replaced(","@, ',', ""@) =~= seq![]);
        assert(a + Seq::<char>::empty() + b =~= digits);
    }
}

/// A number of bytes is read back once the commas are taken out.
pub proof fn bytes_read_back(bytes: u64)
    ensures
        text::number_of(without_commas(grouped(text::decimal_of(bytes as nat)))) == Some(bytes),
{
    text::decimal_digits(bytes as nat);
    grouping_only_adds_commas(text::decimal_of(bytes as nat));
    text::decimal_reads_back(bytes);
}

/// A span of time in hours, minutes and seconds; what is zero at the front is left out.
pub open spec fn duration_text(secs: nat) -> Seq<char> {
    let hours = secs / 3600;
    let minutes = (secs % 3600) / 60;
    let seconds = secs % 60;
    if hours > 0 {
        text::decimal_of(hours) + "h "@ + text::decimal_of(minutes) + "m "@ + text::decimal_of(
            seconds,
        ) + "s"@
    } else if minutes > 0 {
        text::decimal_of(minutes) + "m "@ + text::decimal_of(seconds) + "s"@
    } else {
        text::decimal_of(seconds) + "s"@
    }
}

/// A span of whole seconds in hours, minutes and seconds.
pub fn format_duration(secs: u64) -> (r: String)
    ensures
        r@ == duration_text(secs as nat),
{
    let hours: u64 = secs / 3600;
    let minutes: u64 = (secs % 3600) / 60;
    let seconds: u64 = secs % 60;
    if hours > 0 {
        text::join2(
            &text::join5(
                &text::decimal(hours),
                "h ",
                &text::decimal(minutes),
                "m ",
                &text::decimal(seconds),
            ),
            "s",
        )
    } else if minutes > 0 {
        text::join4(&text::decimal(minutes), "m ", &text::decimal(seconds), "s")
    } else {
        text::join2(&text::decimal(seconds), "s")
    }
}

// ---------------------------------------------------------------------------
// Questions

/// What an answer to a question means: nothing means the default, `y` and
/// `yes` in whatever case mean yes, and all else means no.
pub open spec fn accepted(lower: Seq<char>, default: bool) -> bool {
    if lower.len() == 0 {
        default
    } else {
        lower == "y"@ || lower == "yes"@
    }
}

/// What an answer, in lower case and without white space around it, means.
pub fn accepts(lower: &str, default: bool) -> (r: bool)
    ensures
        r == accepted(lower@, default),
{
    if lower.is_empty() {
        default
    } else {
        text::same(lower, "y") || text::same(lower, "yes")
    }
}

/// What the user answered to a question; the default if nothing could be read.
pub fn confirm(input: &Option<String>, default: bool) -> (r: bool)
    ensures
        r == (match *input {
            Some(line) => accepted(text::lowercase_of(text::trimmed(line@)), default),
            None => default,
        }),
{
    match input {
        Some(line) => accepts(&text::to_lowercase(&text::trim(line)), default),
        None => default,
    }
}

/// What stands after a question.
pub open spec fn choices(default: bool) -> Seq<char> {
    "[y/n] (default: "@ + (if default {
        "y"@
    } else {
        "n"@
    }) + ")\n    ‣ "@
}

/// What stands after a question.
pub fn prompt_choices(default: bool) -> (r: String)
    ensures
        r@ == choices(default),
{
    text::join3(
        "[y/n] (default: ",
        if default {
            "y"
        } else {
            "n"
        },
        ")\n    ‣ ",
    )
}

// ---------------------------------------------------------------------------
// Reports

/// A line of a list.
pub open spec fn item_line(item: Seq<char>) -> Seq<char> {
    "    ‣ "@ + item
}

/// A line of a list, with a remark.
pub open spec fn remark_line(item: Seq<char>, remark: Seq<char>) -> Seq<char> {
    "    ‣ "@ + item + " ("@ + remark + ")"@
}

/// The pairs of a list with their texts taken as sequences of characters.
pub open spec fn flagged(v: Seq<(String, bool)>) -> Seq<(Seq<char>, bool)> {
    v.map_values(|p: (String, bool)| (p.0@, p.1))
}

/// The heading of a report on a number of packages.
pub open spec fn heading(title: Seq<char>, count: nat) -> Seq<char> {
    title + " ("@ + text::decimal_of(count) + "):"@
}

fn report_heading(title: &str, count: u128) -> (r: String)
    ensures
        r@ == heading(title@, count as nat),
{
    text::join4(title, " (", &text::decimal_wide(count), "):")
}

/// The lines of a report on what is required, which says what is installed.
pub open spec fn required_lines(required: Seq<(Seq<char>, bool)>) -> Seq<Seq<char>> {
    required.map_values(
        |p: (Seq<char>, bool)|
            remark_line(
                p.0,
                if p.1 {
                    "installed"@
                } else {
                    "missing"@
                },
            ),
    )
}

/// The lines of a report on dependencies.
pub open spec fn dependency_lines(
    required: Seq<(Seq<char>, bool)>,
    optional: Seq<Seq<char>>,
) -> Seq<Seq<char>> {
    seq![
        heading("Required dependencies found"@, (required.len() + optional.len()) as nat),
    ] + required_lines(required) + optional.map_values(
        |d: Seq<char>| remark_line(d, "optional"@),
    )
}

/// The lines of a report on dependencies.
pub fn dependency_report(required: &Vec<(String, bool)>, optional: &Vec<String>) -> (r: Vec<String>)
    ensures
        text::texts(r@) == dependency_lines(flagged(required@), text::texts(optional@)),
{
    let ghost req = flagged(required@);
    let ghost opt = text::texts(optional@);
    let ghost want = dependency_lines(req, opt);
    let count: u128 = required.len() as u128 + optional.len() as u128;
    let mut out: Vec<String> = Vec::new();
    out.push(report_heading("Required dependencies found", count));
    assert(text::texts(out@) =~= want.take(1));
    let mut i: usize = 0;
    while i < required.len()
        invariant
            i <= required@.len(),
            req == flagged(required@),
            opt == text::texts(optional@),
            want == dependency_lines(req, opt),
            text::texts(out@) == want.take(1 + i),
        decreases required@.len() - i,
    {
        let ghost before = out@;
        assert(req[i as int] == (required@[i as int].0@, required@[i as int].1));
        assert(required_lines(req)[i as int] == want[1 + i]);
        let remark = if required[i].1 {
            "installed"
        } else {
            "missing"
        };
        out.push(text::join5("    ‣ ", &required[i].0, " (", remark, ")"));
        assert(text::texts(out@) =~= text::texts(before).push(want[1 + i]));
        i = i + 1;
        assert(text::texts(out@) =~= want.take(1 + i));
    }
    let mut j: usize = 0;
    while j < optional.len()
        invariant
            j <= optional@.len(),
            req.len() == required@.len(),
            opt == text::texts(optional@),
            want == dependency_lines(req, opt),
            text::texts(out@) == want.take(1 + required@.len() + j),
        decreases optional@.len() - j,
    {
        let ghost before = out@;
        let ghost at = 1 + required@.len() + j;
        assert(opt[j as int] == optional@[j as int]@);
        assert(want[at] == remark_line(opt[j as int], "optional"@));
        out.push(text::join5("    ‣ ", &optional[j], " (", "optional", ")"));
        assert(text::texts(out@) =~= text::texts(before).push(want[at]));
        j = j + 1;
        assert(text::texts(out@) =~= want.take(at + 1));
    }
    assert(want.take(want.len() as int) =~= want);
    out
}

/// The lines of a report on a list of packages.
pub open spec fn list_lines(title: Seq<char>, list: Seq<Seq<char>>) -> Seq<Seq<char>> {
    seq![heading(title, list.len())] + list.map_values(|d: Seq<char>| item_line(d))
}

fn list_report(title: &str, list: &Vec<String>) -> (r: Vec<String>)
    ensures
        text::texts(r@) == list_lines(title@, text::texts(list@)),
{
    let ghost all = text::texts(list@);
    let ghost want = list_lines(title@, all);
    let mut out: Vec<String> = Vec::new();
    out.push(report_heading(title, list.len() as u128));
    assert(text::texts(out@) =~= want.take(1));
    let mut i: usize = 0;
    while i < list.len()
        invariant
            i <= list@.len(),
            all == text::texts(list@),
            want == list_lines(title@, all),
            text::texts(out@) == want.take(1 + i),
        decreases list@.len() - i,
    {
        let ghost before = out@;
        assert(all[i as int] == list@[i as int]@);
        assert(want[1 + i] == item_line(all[i as int]));
        out.push(text::join2("    ‣ ", &list[i]));
        assert(text::texts(out@) =~= text::texts(before).push(want[1 + i]));
        i = i + 1;
        assert(text::texts(out@) =~= want.take(1 + i));
    }
    assert(want.take(want.len() as int) =~= want);
    out
}

/// The lines of a report on conflicts.
pub fn conflict_report(conflicts: &Vec<String>) -> (r: Vec<String>)
    ensures
        text::texts(r@) == list_lines("Conflicting packages"@, text::texts(conflicts@)),
{
    list_report("Conflicting packages", conflicts)
}

/// The lines of a report on what depends on packages.
pub fn reverse_dependency_report(dependents: &Vec<String>) -> (r: Vec<String>)
    ensures
        text::texts(r@) == list_lines("Required by this dependencies"@, text::texts(dependents@)),
{
    list_report("Required by this dependencies", dependents)
}

// ---------------------------------------------------------------------------
// Summaries

/// What came of an operation on a package.
pub struct PackageSummary {
    pub name: String,
    pub version: String,
    pub source: String,
    pub size: u64,
    /// How long it took, in whole seconds.
    pub duration: u64,
    pub checksum: String,
    pub status: String,
}

/// What came of an operation, with its texts taken as sequences of characters.
pub struct SummaryView {
    pub name: Seq<char>,
    pub version: Seq<char>,
    pub source: Seq<char>,
    pub size: nat,
    pub duration: nat,
    pub checksum: Seq<char>,
    pub status: Seq<char>,
}

impl View for PackageSummary {
    type V = SummaryView;

    open spec fn view(&self) -> SummaryView {
        SummaryView {
            name: self.name@,
            version: self.version@,
            source: self.source@,
            size: self.size as nat,
            duration: self.duration as nat,
            checksum: self.checksum@,
            status: self.status@,
        }
    }
}

/// The entries of a list.
pub open spec fn summaries(v: Seq<PackageSummary>) -> Seq<SummaryView> {
    v.map_values(|e: PackageSummary| e@)
}

/// Whether a status says that the operation succeeded.
pub open spec fn is_success(status: Seq<char>) -> bool {
    status == "installed"@ || status == "updated"@ || status == "deleted"@
}

/// The number of entries that succeeded.
pub open spec fn successes(entries: Seq<SummaryView>) -> nat
    decreases entries.len(),
{
    if entries.len() == 0 {
        0
    } else {
        successes(entries.drop_last()) + (if is_success(entries.last().status) {
            1nat
        } else {
            0nat
        })
    }
}

/// The number of entries that succeeded.
pub fn count_successes(entries: &Vec<PackageSummary>) -> (r: usize)
    ensures
        r == successes(summaries(entries@)),
        r <= entries@.len(),
{
    let ghost all = summaries(entries@);
    let mut count: usize = 0;
    let mut i: usize = 0;
    assert(all.take(0) =~= seq![]);
    while i < entries.len()
        invariant
            i <= entries@.len(),
            count <= i,
            all == summaries(entries@),
            count == successes(all.take(i as int)),
        decreases entries@.len() - i,
    {
        assert(all.take(i + 1).drop_last() =~= all.take(i as int));
        assert(all[i as int] == entries@[i as int]@);
        let status = &entries[i].status;
        if text::same(status, "installed") || text::same(status, "updated") || text::same(
            status,
            "deleted",
        ) {
            count = count + 1;
        }
        i = i + 1;
    }
    assert(all.take(all.len() as int) =~= all);
    count
}

/// The short summary: how many entries succeeded, and how many failed if any did.
pub open spec fn short_summary(entries: Seq<SummaryView>) -> Seq<char> {
    let ok = successes(entries);
    let failed = (entries.len() - ok) as nat;
    if failed > 0 {
        "    "@ + text::decimal_of(ok) + " success, "@ + text::decimal_of(failed) + " failed."@
    } else {
        "    "@ + text::decimal_of(ok) + " package(s) has been proceed."@
    }
}

/// The short summary of an operation.
pub fn print_operation_summary(entries: &Vec<PackageSummary>) -> (r: String)
    ensures
        r@ == short_summary(summaries(entries@)),
{
    let ok: usize = count_successes(entries);
    let failed: usize = entries.len() - ok;
    assert(summaries(entries@).len() == entries@.len());
    if failed > 0 {
        text::join5(
            "    ",
            &text::decimal(ok as u64),
            " success, ",
            &text::decimal(failed as u64),
            " failed.",
        )
    } else {
        text::join3("    ", &text::decimal(ok as u64), " package(s) has been proceed.")
    }
}

/// The log file of a day.
pub fn log_file_path(log_dir: &str, today: &str) -> (r: String)
    ensures
        r@ == path::joined(log_dir@, today@ + ".log"@),
{
    path::join(log_dir, &text::join2(today, ".log"))
}

/// What the log says of an entry.
pub open spec fn entry_text(e: SummaryView) -> Seq<char> {
    "\n          ::: [ "@ + e.name + " ("@ + e.version + ") ] :::\n        • Source      : "@
        + e.source + "\n        • Size        : "@ + grouped(text::decimal_of(e.size))
        + " bytes\n        • Duration    : "@ + duration_text(e.duration) + "\n"@ + (if e.checksum.len()
        > 0 {
        "        • SHA256      : [ "@ + e.checksum + " ]\n"@
    } else {
        "        • SHA256      : [ FATAL: not provided by the repository! ]\n"@
    }) + "        • Status      : "@ + e.status + "\n"@
}

/// What the log says of entries.
pub open spec fn entries_text(entries: Seq<SummaryView>) -> Seq<char>
    decreases entries.len(),
{
    if entries.len() == 0 {
        seq![]
    } else {
        entries_text(entries.drop_last()) + entry_text(entries.last())
    }
}

/// What the log says of an operation.
pub open spec fn summary_text(date: Seq<char>, hour: Seq<char>, entries: Seq<SummaryView>) -> Seq<
    char,
> {
    "‣ Date   : "@ + date + "\n‣ Hour   : "@ + hour + "\nOperation summary detailed log:\n"@
        + entries_text(entries)
        + "\n─────────────────────────────────────────────────────────────\n\n"@
}

fn render_entry(e: &PackageSummary) -> (r: String)
    ensures
        r@ == entry_text(e@),
{
    let head = text::join5(
        &text::join5(
            "\n          ::: [ ",
            &e.name,
            " (",
            &e.version,
            ") ] :::\n        • Source      : ",
        ),
        &e.source,
        "\n        • Size        : ",
        &format_bytes(e.size),
        " bytes\n        • Duration    : ",
    );
    let sum = if !e.checksum.as_str().is_empty() {
        text::join3("        • SHA256      : [ ", &e.checksum, " ]\n")
    } else {
        "        • SHA256      : [ FATAL: not provided by the repository! ]\n".to_owned()
    };
    text::join4(
        &text::join4(&head, &format_duration(e.duration), "\n", &sum),
        "        • Status      : ",
        &e.status,
        "\n",
    )
}

/// What the log says of an operation, by the date and the hour at which it ended.
pub fn render_operation_summary(date: &str, hour: &str, entries: &Vec<PackageSummary>) -> (r: String)
    ensures
        r@ == summary_text(date@, hour@, summaries(entries@)),
{
    let ghost all = summaries(entries@);
    let mut body = String::new();
    let mut i: usize = 0;
    assert(all.take(0) =~= seq![]);
    while i < entries.len()
        invariant
            i <= entries@.len(),
            all == summaries(entries@),
            body@ == entries_text(all.take(i as int)),
        decreases entries@.len() - i,
    {
        assert(all.take(i + 1).drop_last() =~= all.take(i as int));
        assert(all[i as int] == entries@[i as int]@);
        body = text::join2(&body, &render_entry(&entries[i]));
        i = i + 1;
    }
    assert(all.take(all.len() as int) =~= all);
    text::join3(
        &text::join5(
            "‣ Date   : ",
            date,
            "\n‣ Hour   : ",
            hour,
            "\nOperation summary detailed log:\n",
        ),
        &body,
        "\n─────────────────────────────────────────────────────────────\n\n",
    )
}

// ---------------------------------------------------------------------------
// What is reported

/// Commas part groups of three digits, counted from the end.
pub proof fn commas_part_groups_of_three(a: Seq<char>, b: Seq<char>)
    requires
        b.len() == 3,
    ensures
        a.len() > 0 ==> grouped(a + b) == grouped(a) + ","@ + b,
        a.len() <= 3 ==> grouped(a) == a,
{
    let s = a + b;
    assert(s.take(s.len() - 3) =~= a);
    assert(s.skip(s.len() - 3) =~= b);
}

/// The parts of a duration add up to it; parts that would be zero at the front
/// are left out.
pub proof fn durations_add_up(hours: nat, minutes: nat, seconds: nat)
    requires
        minutes < 60,
        seconds < 60,
    ensures
        ({
            let secs = (hours * 3600 + minutes * 60 + seconds) as nat;
            &&& hours > 0 ==> duration_text(secs) == text::decimal_of(hours) + "h "@
                + text::decimal_of(minutes) + "m "@ + text::decimal_of(seconds) + "s"@
            &&& hours == 0 && minutes > 0 ==> duration_text(secs) == text::decimal_of(minutes)
                + "m "@ + text::decimal_of(seconds) + "s"@
            &&& hours == 0 && minutes == 0 ==> duration_text(secs) == text::decimal_of(seconds)
                + "s"@
        }),
{
    let secs = (hours * 3600 + minutes * 60 + seconds) as nat;
    assert(secs / 3600 == hours);
    assert(secs % 3600 == minutes * 60 + seconds);
    assert((secs % 3600) / 60 == minutes);
    assert(secs % 60 == seconds);
}

/// Only `y` and `yes` agree; an empty answer stands for the default.
pub proof fn only_yes_agrees(lower: Seq<char>, default: bool)
    ensures
        lower.len() > 0 ==> (accepted(lower, default) <==> lower == seq!['y'] || lower == seq![
            'y',
            'e',
            's',
        ]),
        lower.len() == 0 ==> accepted(lower, default) == default,
{
    reveal_strlit("y");
    reveal_strlit("yes");
    assert("y"@ =~= seq!['y']);
    assert("yes"@ =~= seq!['y', 'e', 's']);
}

/// A report of dependencies has a line for each of them, in order: first those
/// that are needed, with whether they are there, then those that are optional.
pub proof fn every_dependency_is_reported(
    required: Seq<(Seq<char>, bool)>,
    optional: Seq<Seq<char>>,
    k: int,
)
    ensures
        ({
            let lines = dependency_lines(required, optional);
            &&& lines.len() == 1 + required.len() + optional.len()
            &&& lines[0] == "Required dependencies found"@ + " ("@ + text::decimal_of(
                (required.len() + optional.len()) as nat,
            ) + "):"@
            &&& 0 <= k < required.len() && required[k].1 ==> lines[1 + k] == "    ‣ "@
                + required[k].0 + " ("@ + "installed"@ + ")"@
            &&& 0 <= k < required.len() && !required[k].1 ==> lines[1 + k] == "    ‣ "@
                + required[k].0 + " ("@ + "missing"@ + ")"@
            &&& 0 <= k < optional.len() ==> lines[1 + required.len() + k] == "    ‣ "@ + optional[k]
                + " ("@ + "optional"@ + ")"@
        }),
{
}

/// A list is reported under its title and length, with a line for each of its
/// entries, in order.
pub proof fn every_entry_is_reported(title: Seq<char>, list: Seq<Seq<char>>, k: int)
    requires
        0 <= k < list.len(),
    ensures
        list_lines(title, list).len() == 1 + list.len(),
        list_lines(title, list)[0] == title + " ("@ + text::decimal_of(list.len()) + "):"@,
        list_lines(title, list)[1 + k] == "    ‣ "@ + list[k],
{
}

/// Each operation that ended well counts once, and no other.
pub proof fn successes_are_counted(a: Seq<SummaryView>, b: Seq<SummaryView>)
    ensures
        successes(a + b) == successes(a) + successes(b),
        b.len() == 1 ==> successes(b) == (if b[0].status == "installed"@ || b[0].status
            == "updated"@ || b[0].status == "deleted"@ {
            1nat
        } else {
            0nat
        }),
    decreases b.len(),
{
    if b.len() == 0 {
        assert(a + b =~= a);
    } else {
        successes_are_counted(a, b.drop_last());
        assert((a + b).drop_last() =~= a + b.drop_last());
        assert((a + b).last() == b.last());
        if b.len() == 1 {
            assert(b.drop_last() =~= seq![]);
            assert(successes(b.drop_last()) == 0);
        }
    }
}

/// The log tells of every operation, in order.
pub proof fn every_operation_is_logged(a: Seq<SummaryView>, b: Seq<SummaryView>)
    ensures
        entries_text(a + b) == entries_text(a) + entries_text(b),
        b.len() == 1 ==> entries_text(b) == entry_text(b[0]),
    decreases b.len(),
{
    if b.len() == 0 {
        assert(a + b =~= a);
        assert(entries_text(a) + entries_text(b) =~= entries_text(a));
    } else {
        every_operation_is_logged(a, b.drop_last());
        assert((a + b).drop_last() =~= a + b.drop_last());
        assert((a + b).last() == b.last());
        assert(entries_text(a + b) =~= entries_text(a) + entries_text(b));
        if b.len() == 1 {
            assert(b.drop_last() =~= seq![]);
            assert(entries_text(b.drop_last()) =~= seq![]);
            assert(entries_text(b) =~= entry_text(b[0]));
        }
    }
}

} // verus!
