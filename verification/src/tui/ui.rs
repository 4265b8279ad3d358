//! What the trainer's screen says: the text and colours of the header, the
//! exercise list, the detail panel and the footer. Laying these lines out in
//! the terminal is left to the application.

use vstd::prelude::*;
use crate::commands::progress::percent;
use crate::display::{bar, progress_bar, rounded_ratio};
use crate::text::{
    chars_of, decimal, lines, lines_of, pad_to, push_decimal, push_repeated, push_str, string_of,
    trim, trim_chars,
};

verus! {

/// The colour and weight a piece of text is drawn with.
#[derive(Debug, Clone, Copy, PartialEq, Eq, Structural)]
pub enum Tone {
    Default,
    CyanBold,
    YellowBold,
    GreenBold,
    RedBold,
    WhiteBold,
    Cyan,
    Yellow,
    Green,
    Red,
    White,
    DarkGray,
}

/// Where an exercise stands.
#[derive(Debug, Clone, Copy, PartialEq, Eq, Structural)]
pub enum ExerciseStatus {
    Passed,
    Failed,
    NotStarted,
}

/// A piece of text in one tone.
#[derive(Debug)]
pub struct StyledSpan {
    pub text: String,
    pub tone: Tone,
}

/// One screen line; no spans is an empty line.
#[derive(Debug)]
pub struct StyledLine {
    pub spans: Vec<StyledSpan>,
}

pub type SpanView = (Seq<char>, Tone);

pub open spec fn span_view(s: StyledSpan) -> SpanView {
    (s.text@, s.tone)
}

pub open spec fn line_view(l: StyledLine) -> Seq<SpanView> {
    l.spans@.map_values(|s: StyledSpan| span_view(s))
}

pub open spec fn lines_view(ls: Seq<StyledLine>) -> Seq<Seq<SpanView>> {
    ls.map_values(|l: StyledLine| line_view(l))
}

/// A line made of one span.
pub open spec fn one(text: Seq<char>, tone: Tone) -> Seq<SpanView> {
    seq![(text, tone)]
}

/// An empty line.
pub open spec fn blank() -> Seq<SpanView> {
    Seq::empty()
}

fn span_of(text: &Vec<char>, tone: Tone) -> (s: StyledSpan)
    ensures
        span_view(s) == (text@, tone),
{
    StyledSpan { text: string_of(text), tone }
}

fn literal(text: &str, tone: Tone) -> (s: StyledSpan)
    ensures
        span_view(s) == (text@, tone),
{
    StyledSpan { text: text.to_owned(), tone }
}

fn line_of(spans: Vec<StyledSpan>) -> (l: StyledLine)
    ensures
        l.spans@ == spans@,
{
    StyledLine { spans }
}

fn single(span: StyledSpan) -> (l: StyledLine)
    ensures
        line_view(l) == seq![span_view(span)],
{
    let mut spans: Vec<StyledSpan> = Vec::new();
    spans.push(span);
    let l = StyledLine { spans };
    assert(line_view(l) =~= seq![span_view(span)]);
    l
}

fn push_line(out: &mut Vec<StyledLine>, l: StyledLine)
    ensures
        lines_view(final(out)@) == lines_view(old(out)@).push(line_view(l)),
{
    out.push(l);
    assert(lines_view(out@) =~= lines_view(old(out)@).push(line_view(l)));
}

fn push_blank(out: &mut Vec<StyledLine>)
    ensures
        lines_view(final(out)@) == lines_view(old(out)@).push(blank()),
{
    let l = StyledLine { spans: Vec::new() };
    assert(line_view(l) =~= blank());
    push_line(out, l);
}

fn push_single(out: &mut Vec<StyledLine>, text: &Vec<char>, tone: Tone)
    ensures
        lines_view(final(out)@) == lines_view(old(out)@).push(one(text@, tone)),
{
    push_line(out, single(span_of(text, tone)));
}

fn push_literal_line(out: &mut Vec<StyledLine>, text: &str, tone: Tone)
    ensures
        lines_view(final(out)@) == lines_view(old(out)@).push(one(text@, tone)),
{
    push_line(out, single(literal(text, tone)));
}

// ---------------------------------------------------------------- header

/// The header line: the title, then where the selected exercise stands
/// among modules and within its module.
pub open spec fn header_view(module_index: nat, module_total: nat, exercise_index: nat, exercise_total: nat) -> Seq<SpanView> {
    seq![
        (" 🏋️ Helix Trainer"@, Tone::CyanBold),
        ("  "@, Tone::Default),
        ("📦 Module "@ + decimal(module_index) + "/"@ + decimal(module_total) + "  "@, Tone::DarkGray),
        ("📝 Exercise "@ + decimal(exercise_index) + "/"@ + decimal(exercise_total) + "  "@, Tone::DarkGray),
        ("[?]=help"@, Tone::DarkGray),
    ]
}

pub fn header_line(module_index: usize, module_total: usize, exercise_index: usize, exercise_total: usize) -> (l: StyledLine)
    ensures
        line_view(l) == header_view(module_index as nat, module_total as nat, exercise_index as nat, exercise_total as nat),
{
    let mut m: Vec<char> = Vec::new();
    push_str(&mut m, "📦 Module ");
    push_decimal(&mut m, module_index);
    push_str(&mut m, "/");
    push_decimal(&mut m, module_total);
    push_str(&mut m, "  ");
    let mut e: Vec<char> = Vec::new();
    push_str(&mut e, "📝 Exercise ");
    push_decimal(&mut e, exercise_index);
    push_str(&mut e, "/");
    push_decimal(&mut e, exercise_total);
    push_str(&mut e, "  ");
    let mut spans: Vec<StyledSpan> = Vec::new();
    spans.push(literal(" 🏋️ Helix Trainer", Tone::CyanBold));
    spans.push(literal("  ", Tone::Default));
    spans.push(span_of(&m, Tone::DarkGray));
    spans.push(span_of(&e, Tone::DarkGray));
    spans.push(literal("[?]=help", Tone::DarkGray));
    let l = line_of(spans);
    assert(line_view(l) =~= header_view(module_index as nat, module_total as nat, exercise_index as nat, exercise_total as nat));
    l
}

// ---------------------------------------------------------------- footer

/// The footer line: a bar of 20 cells and the completed count, total and
/// percentage.
pub open spec fn footer_view(completed: nat, total: nat) -> Seq<SpanView> {
    seq![
        (" 🏆 "@, Tone::Default),
        (bar(rounded_ratio(completed, total, 20), 20), Tone::Green),
        (" "@ + decimal(completed) + "/"@ + decimal(total) + " ("@ + decimal(rounded_ratio(completed, total, 100)) + "%)"@, Tone::White),
        ("                              👀 Watching..."@, Tone::DarkGray),
    ]
}

pub fn footer_line(completed: usize, total: usize) -> (l: StyledLine)
    requires
        rounded_ratio(completed as nat, total as nat, 100) <= usize::MAX,
    ensures
        line_view(l) == footer_view(completed as nat, total as nat),
{
    proof {
        lemma_ratio_monotone(completed as nat, total as nat);
    }
    let pct = percent(completed, total);
    let b = progress_bar(completed, total, 20);
    let mut c: Vec<char> = Vec::new();
    push_str(&mut c, " ");
    push_decimal(&mut c, completed);
    push_str(&mut c, "/");
    push_decimal(&mut c, total);
    push_str(&mut c, " (");
    push_decimal(&mut c, pct);
    push_str(&mut c, "%)");
    let mut spans: Vec<StyledSpan> = Vec::new();
    spans.push(literal(" 🏆 ", Tone::Default));
    spans.push(StyledSpan { text: b, tone: Tone::Green });
    spans.push(span_of(&c, Tone::White));
    spans.push(literal("                              👀 Watching...", Tone::DarkGray));
    let l = line_of(spans);
    assert(line_view(l) =~= footer_view(completed as nat, total as nat));
    l
}

proof fn lemma_ratio_monotone(part: nat, whole: nat)
    ensures
        rounded_ratio(part, whole, 20) <= rounded_ratio(part, whole, 100),
{
    if whole > 0 {
        assert(2 * part * 20 + whole <= 2 * part * 100 + whole) by (nonlinear_arith);
        vstd::arithmetic::div_mod::lemma_div_is_ordered(
            (2 * part * 20 + whole) as int,
            (2 * part * 100 + whole) as int,
            (2 * whole) as int,
        );
    }
}

// ---------------------------------------------------------------- list

/// Index at which the last component of a path starts (just past its last
/// `/`, or 0).
pub open spec fn name_start(p: Seq<char>) -> nat
    decreases p.len(),
{
    if p.len() == 0 {
        0
    } else if p.last() == '/' {
        p.len()
    } else {
        name_start(p.drop_last())
    }
}


/// What the exercise list shows of one exercise.
#[derive(Debug)]
pub struct ListEntry {
    pub category: String,
    pub id: String,
    pub title: String,
    pub status: ExerciseStatus,
}

/// Index of the first `-` in `s`, or its length.
pub open spec fn first_dash(s: Seq<char>) -> nat
    decreases s.len(),
{
    if s.len() == 0 {
        0
    } else if s[0] == '-' {
        0
    } else {
        1 + first_dash(s.drop_first())
    }
}

/// The number shown before a title: the last `/`-separated part of the id,
/// up to its first `-`.
pub open spec fn exercise_number(id: Seq<char>) -> Seq<char> {
    let last = id.skip(name_start(id) as int);
    last.take(first_dash(last) as int)
}

/// Icon and tone of an exercise in the list.
pub open spec fn marker(selected: bool, status: ExerciseStatus) -> (Seq<char>, Tone) {
    if selected {
        ("👉"@, Tone::WhiteBold)
    } else {
        match status {
            ExerciseStatus::Passed => ("✅"@, Tone::Green),
            ExerciseStatus::Failed => ("⬜"@, Tone::White),
            ExerciseStatus::NotStarted => ("⬜"@, Tone::DarkGray),
        }
    }
}

/// The category in effect before entry `i`: the previous entry's, or none.
pub open spec fn previous_category(es: Seq<ListEntry>, i: int) -> Seq<char> {
    if i == 0 {
        Seq::empty()
    } else {
        es[i - 1].category@
    }
}

/// The lines for entry `i`: a category heading when the category changes,
/// then the exercise itself.
pub open spec fn entry_lines(es: Seq<ListEntry>, i: int, selected: int) -> Seq<Seq<SpanView>> {
    let e = es[i];
    let (icon, tone) = marker(i == selected, e.status);
    let item = one(" "@ + icon + " "@ + exercise_number(e.id@) + "."@ + e.title@, tone);
    if e.category@ != previous_category(es, i) {
        seq![one("🗂 "@ + e.category@, Tone::YellowBold), item]
    } else {
        seq![item]
    }
}

/// All lines of the exercise list, entry by entry.
pub open spec fn list_view(es: Seq<ListEntry>, selected: int) -> Seq<Seq<SpanView>>
    decreases es.len(),
{
    if es.len() == 0 {
        Seq::empty()
    } else {
        list_view(es.drop_last(), selected) + entry_lines(es, es.len() - 1, selected)
    }
}

proof fn lemma_list_view_prefix(es: Seq<ListEntry>, selected: int, i: int)
    requires
        0 <= i < es.len(),
    ensures
        list_view(es.take(i + 1), selected) == list_view(es.take(i), selected) + entry_lines(es, i, selected),
{
    let t = es.take(i + 1);
    assert(t.drop_last() =~= es.take(i));
    assert(t[i] == es[i]);
    if i > 0 {
        assert(t[i - 1] == es[i - 1]);
    }
    assert(entry_lines(t, i, selected) == entry_lines(es, i, selected));
}

/// Whether entry `i` opens a new run of its category: its category text
/// differs from that of the entry before it (before the first entry, the
/// empty text).
pub open spec fn starts_category(es: Seq<ListEntry>, i: int) -> bool {
    if i == 0 {
        es[0].category@ != Seq::<char>::empty()
    } else {
        es[i].category@ != es[i - 1].category@
    }
}

/// How many of the first `n` entries open a new run of their category.
pub open spec fn headings_through(es: Seq<ListEntry>, n: int) -> nat
    decreases n,
{
    if n <= 0 {
        0
    } else {
        headings_through(es, n - 1) + if starts_category(es, n - 1) { 1nat } else { 0nat }
    }
}

/// The index, in the exercise list, of the line that shows entry `i`: one
/// line for each entry before it and one for each heading up to it.
pub open spec fn entry_position(es: Seq<ListEntry>, i: int) -> int {
    i + headings_through(es, i + 1)
}

proof fn lemma_headings_prefix(es: Seq<ListEntry>, n: int)
    requires
        es.len() > 0,
        0 <= n < es.len(),
    ensures
        headings_through(es.drop_last(), n) == headings_through(es, n),
    decreases n,
{
    if n > 0 {
        lemma_headings_prefix(es, n - 1);
        assert(starts_category(es.drop_last(), n - 1) == starts_category(es, n - 1));
    }
}

proof fn lemma_headings_monotone(es: Seq<ListEntry>, a: int, b: int)
    requires
        0 <= a <= b,
    ensures
        headings_through(es, a) <= headings_through(es, b),
    decreases b - a,
{
    if a < b {
        lemma_headings_monotone(es, a, b - 1);
    }
}

/// The exercise list holds one line per exercise and one heading per run of
/// a category, nothing else. The line of entry `i` shows its number and
/// title behind the `👉` marker in white bold when `i` is the selected
/// index, whatever its status, and otherwise behind its status icon: `✅` in
/// green when passed, `⬜` in white when failed, `⬜` in dark gray when not
/// started. Exactly when the entry's category text differs from the previous
/// entry's, the line just before it is the heading `🗂 {category}`.
pub proof fn law_exercise_list(es: Seq<ListEntry>, selected: int)
    ensures
        list_view(es, selected).len() == es.len() + headings_through(es, es.len() as int),
        forall|i: int|
            0 <= i < es.len() ==> {
                let v = list_view(es, selected);
                let e = es[i];
                let pos = #[trigger] entry_position(es, i);
                let rest = " "@ + exercise_number(e.id@) + "."@ + e.title@;
                &&& 0 <= pos < v.len()
                &&& i == selected ==> v[pos] == one(" "@ + "👉"@ + rest, Tone::WhiteBold)
                &&& i != selected && e.status == ExerciseStatus::Passed ==> v[pos] == one(
                    " "@ + "✅"@ + rest,
                    Tone::Green,
                )
                &&& i != selected && e.status == ExerciseStatus::Failed ==> v[pos] == one(
                    " "@ + "⬜"@ + rest,
                    Tone::White,
                )
                &&& i != selected && e.status == ExerciseStatus::NotStarted ==> v[pos] == one(
                    " "@ + "⬜"@ + rest,
                    Tone::DarkGray,
                )
                &&& starts_category(es, i) ==> pos >= 1 && v[pos - 1] == one(
                    "🗂 "@ + e.category@,
                    Tone::YellowBold,
                )
                &&& !starts_category(es, i) ==> pos == entry_position(es, i - 1) + 1
            },
    decreases es.len(),
{
    if es.len() > 0 {
        let p = es.drop_last();
        let last = es.len() - 1;
        law_exercise_list(p, selected);
        lemma_headings_prefix(es, last);
        let vp = list_view(p, selected);
        let v = list_view(es, selected);
        let tail = entry_lines(es, last, selected);
        assert(v == vp + tail);
        assert(starts_category(es, last) == (es[last].category@ != previous_category(es, last)));
        assert forall|i: int| 0 <= i < es.len() implies {
            let e = es[i];
            let pos = #[trigger] entry_position(es, i);
            let rest = " "@ + exercise_number(e.id@) + "."@ + e.title@;
            &&& 0 <= pos < v.len()
            &&& i == selected ==> v[pos] == one(" "@ + "👉"@ + rest, Tone::WhiteBold)
            &&& i != selected && e.status == ExerciseStatus::Passed ==> v[pos] == one(
                " "@ + "✅"@ + rest,
                Tone::Green,
            )
            &&& i != selected && e.status == ExerciseStatus::Failed ==> v[pos] == one(
                " "@ + "⬜"@ + rest,
                Tone::White,
            )
            &&& i != selected && e.status == ExerciseStatus::NotStarted ==> v[pos] == one(
                " "@ + "⬜"@ + rest,
                Tone::DarkGray,
            )
            &&& starts_category(es, i) ==> pos >= 1 && v[pos - 1] == one(
                "🗂 "@ + e.category@,
                Tone::YellowBold,
            )
            &&& !starts_category(es, i) ==> pos == entry_position(es, i - 1) + 1
        } by {
            if i < last {
                lemma_headings_prefix(es, i + 1);
                lemma_headings_prefix(es, i);
                lemma_headings_monotone(p, i + 1, last);
                assert(p[i] == es[i]);
                assert(starts_category(p, i) == starts_category(es, i));
                assert(entry_position(p, i) == entry_position(es, i));
                let pos = entry_position(es, i);
                assert(pos < vp.len());
                assert(v[pos] == vp[pos]);
                if starts_category(es, i) {
                    assert(v[pos - 1] == vp[pos - 1]);
                }
                if i > 0 {
                    assert(entry_position(p, i - 1) == entry_position(es, i - 1));
                }
            } else {
                let e = es[last];
                let pos = entry_position(es, last);
                let (icon, tone) = marker(last == selected, e.status);
                let item = one(" "@ + icon + " "@ + exercise_number(e.id@) + "."@ + e.title@, tone);
                let rest = " "@ + exercise_number(e.id@) + "."@ + e.title@;
                assert(" "@ + icon + " "@ + exercise_number(e.id@) + "."@ + e.title@ =~= " "@ + icon + rest);
                if starts_category(es, last) {
                    assert(pos == vp.len() + 1);
                    assert(tail == seq![one("🗂 "@ + e.category@, Tone::YellowBold), item]);
                    assert(v[pos] == item);
                    assert(v[pos - 1] == tail[0]);
                } else {
                    assert(pos == vp.len());
                    assert(tail == seq![item]);
                    assert(v[pos] == item);
                }
                if last > 0 {
                    assert(entry_position(es, last - 1) == last - 1 + headings_through(es, last));
                }
            }
        }
    }
}

fn number_of(id: &str) -> (n: Vec<char>)
    ensures
        n@ == exercise_number(id@),
{
    let s = chars_of(id);
    let mut j: usize = s.len();
    assert(s@.take(j as int) =~= s@);
    while j > 0 && s[j - 1] != '/'
        invariant
            j <= s@.len(),
            name_start(s@) == name_start(s@.take(j as int)),
        decreases j,
    {
        assert(s@.take(j as int).drop_last() =~= s@.take(j - 1));
        j -= 1;
    }
    if j > 0 {
        assert(s@.take(j as int).last() == '/');
    }
    assert(name_start(s@) == j);
    let ghost last = s@.skip(j as int);
    let mut k: usize = j;
    assert(last.skip(0) =~= last);
    while k < s.len() && s[k] != '-'
        invariant
            j <= k <= s@.len(),
            last == s@.skip(j as int),
            first_dash(last) == (k - j) + first_dash(last.skip(k - j)),
        decreases s@.len() - k,
    {
        assert(last.skip(k - j).drop_first() =~= last.skip(k - j + 1));
        k += 1;
    }
    if k < s.len() {
        assert(last.skip(k - j)[0] == s@[k as int]);
    }
    let n = crate::text::copy_range(&s, j, k);
    assert(n@ =~= last.take(first_dash(last) as int));
    n
}

/// The lines of the exercise list: a heading for each run of exercises of
/// one category, and one line per exercise with its status icon, number and
/// title; the exercise at `selected` is highlighted.
pub fn exercise_list_lines(entries: &Vec<ListEntry>, selected: usize) -> (ls: Vec<StyledLine>)
    ensures
        lines_view(ls@) == list_view(entries@, selected as int),
{
    let mut out: Vec<StyledLine> = Vec::new();
    let mut current: Vec<char> = Vec::new();
    let mut i: usize = 0;
    assert(lines_view(out@) =~= list_view(entries@.take(0), selected as int));
    while i < entries.len()
        invariant
            i <= entries@.len(),
            current@ == previous_category(entries@, i as int),
            lines_view(out@) == list_view(entries@.take(i as int), selected as int),
        decreases entries@.len() - i,
    {
        let e = &entries[i];
        let cat = chars_of(e.category.as_str());
        let mut same = cat.len() == current.len();
        let mut m: usize = 0;
        while same && m < cat.len()
            invariant
                m <= cat@.len(),
                same ==> cat@.len() == current@.len(),
                same ==> cat@.take(m as int) == current@.take(m as int),
                !same ==> cat@ != current@,
            decreases cat@.len() - m,
        {
            if cat[m] != current[m] {
                same = false;
            } else {
                assert(cat@.take(m + 1) =~= cat@.take(m as int).push(cat@[m as int]));
                assert(current@.take(m + 1) =~= current@.take(m as int).push(current@[m as int]));
            }
            m += 1;
        }
        if same {
            assert(cat@ =~= cat@.take(m as int));
            assert(current@ =~= current@.take(m as int));
        }
        if !same {
            let mut h: Vec<char> = Vec::new();
            push_str(&mut h, "🗂 ");
            push_str(&mut h, e.category.as_str());
            push_single(&mut out, &h, Tone::YellowBold);
            current = cat;
        }
        let (icon, tone) = if i == selected {
            ("👉", Tone::WhiteBold)
        } else {
            match e.status {
                ExerciseStatus::Passed => ("✅", Tone::Green),
                ExerciseStatus::Failed => ("⬜", Tone::White),
                ExerciseStatus::NotStarted => ("⬜", Tone::DarkGray),
            }
        };
        let mut t: Vec<char> = Vec::new();
        push_str(&mut t, " ");
        push_str(&mut t, icon);
        push_str(&mut t, " ");
        let num = number_of(e.id.as_str());
        let ghost before_num = t@;
        t.append(&mut num.clone());
        assert(t@ == before_num + num@);
        push_str(&mut t, ".");
        push_str(&mut t, e.title.as_str());
        push_single(&mut out, &t, tone);
        proof {
            lemma_list_view_prefix(entries@, selected as int, i as int);
            assert(marker(i == selected, e.status) == (icon@, tone));
        }
        i += 1;
        assert(current@ == previous_category(entries@, i as int));
    }
    assert(entries@.take(i as int) =~= entries@);
    out
}

// ---------------------------------------------------------------- detail

/// A command an exercise teaches.
#[derive(Debug)]
pub struct CommandView {
    pub key: String,
    pub description: String,
}

/// A line where PRACTICE differs from EXPECTED.
#[derive(Debug)]
pub struct DiffLine {
    pub line_num: usize,
    pub got: String,
    pub expected: String,
}

/// What the detail panel shows of the selected exercise.
#[derive(Debug)]
pub struct DetailView {
    pub difficulty: u8,
    pub title: String,
    pub commands: Vec<CommandView>,
    pub notes: String,
    pub instructions: String,
    /// A message to show in place of the exercise's status.
    pub flash: Option<String>,
    pub status: ExerciseStatus,
    pub diff: Vec<DiffLine>,
    /// How many hints have been revealed.
    pub hint_level: usize,
    pub hints: Vec<String>,
}

/// The rule between sections.
pub open spec fn rule() -> Seq<char> {
    " ─────────────────────────────────────────"@
}

pub open spec fn stars(difficulty: u8) -> Seq<char> {
    if difficulty == 1 {
        "⭐"@
    } else if difficulty == 2 {
        "⭐⭐"@
    } else {
        "⭐⭐⭐"@
    }
}

pub open spec fn title_section(d: DetailView) -> Seq<Seq<SpanView>> {
    seq![one(" "@ + stars(d.difficulty) + " "@ + d.title@, Tone::CyanBold), blank()]
}

pub open spec fn command_line(c: CommandView) -> Seq<SpanView> {
    seq![("   "@ + pad_to(c.key@, 8), Tone::GreenBold), (c.description@, Tone::White)]
}

pub open spec fn commands_section(cs: Seq<CommandView>) -> Seq<Seq<SpanView>> {
    if cs.len() == 0 {
        Seq::empty()
    } else {
        seq![one(" ⌨️  COMMANDS"@, Tone::YellowBold)] + cs.map_values(|c: CommandView| command_line(c))
            + seq![blank()]
    }
}

/// Each text line indented by three spaces, in one tone.
pub open spec fn indented(ls: Seq<Seq<char>>, tone: Tone) -> Seq<Seq<SpanView>> {
    ls.map_values(|l: Seq<char>| one("   "@ + l, tone))
}

pub open spec fn notes_section(notes: Seq<char>) -> Seq<Seq<SpanView>> {
    if notes.len() == 0 {
        Seq::empty()
    } else {
        indented(lines(notes), Tone::DarkGray).push(blank())
    }
}

pub open spec fn instructions_section(instructions: Seq<char>) -> Seq<Seq<SpanView>> {
    seq![one(" 📋 INSTRUCTIONS"@, Tone::YellowBold)] + indented(lines(trim(instructions)), Tone::White)
        + seq![blank(), one(rule(), Tone::DarkGray)]
}

pub open spec fn diff_pair(d: DiffLine) -> Seq<Seq<SpanView>> {
    seq![
        one("   line "@ + decimal(d.line_num as nat) + ": got \""@ + d.got@ + "\""@, Tone::Red),
        one("          expected \""@ + d.expected@ + "\""@, Tone::Green),
    ]
}

pub open spec fn diff_lines(ds: Seq<DiffLine>) -> Seq<Seq<SpanView>>
    decreases ds.len(),
{
    if ds.len() == 0 {
        Seq::empty()
    } else {
        diff_lines(ds.drop_last()) + diff_pair(ds.last())
    }
}

/// How many differences are listed (at most five).
pub open spec fn shown_diffs(n: nat) -> nat {
    if n < 5 { n } else { 5 }
}

pub open spec fn status_section(d: DetailView) -> Seq<Seq<SpanView>> {
    match d.flash {
        Some(msg) => seq![one(" "@ + msg@, Tone::GreenBold)],
        None => match d.status {
            ExerciseStatus::Passed => seq![one(" ✅ PASSED!"@, Tone::GreenBold)],
            ExerciseStatus::NotStarted => seq![
                one(" ⬜ Not started — edit the .hxt file to begin"@, Tone::DarkGray),
            ],
            ExerciseStatus::Failed => {
                let n = d.diff@.len();
                seq![
                    one(
                        " ❌ "@ + decimal(n) + " difference"@ + (if n == 1 { ""@ } else { "s"@ })
                            + " found"@,
                        Tone::RedBold,
                    ),
                ] + diff_lines(d.diff@.take(shown_diffs(n) as int)) + if n > 5 {
                    seq![one("   ... and "@ + decimal((n - 5) as nat) + " more"@, Tone::DarkGray)]
                } else {
                    Seq::empty()
                }
            },
        },
    }
}

pub open spec fn hint_lines(hs: Seq<String>) -> Seq<Seq<SpanView>> {
    Seq::new(hs.len(), |i: int| one("   "@ + decimal((i + 1) as nat) + ". "@ + hs[i]@, Tone::Yellow))
}

pub open spec fn hints_section(hs: Seq<String>, level: nat) -> Seq<Seq<SpanView>> {
    if level == 0 {
        Seq::empty()
    } else {
        seq![blank(), one(" 💡 HINTS"@, Tone::YellowBold)] + hint_lines(
            hs.take(if level < hs.len() { level as int } else { hs.len() as int }),
        ) + if hs.len() > level {
            seq![one("   ("@ + decimal((hs.len() - level) as nat) + " more — press h)"@, Tone::DarkGray)]
        } else {
            Seq::empty()
        }
    }
}

pub open spec fn key_bar() -> Seq<SpanView> {
    seq![
        (" 💡"@, Tone::Default),
        ("[h]"@, Tone::Cyan),
        (" hint  "@, Tone::DarkGray),
        ("🔄"@, Tone::Default),
        ("[r]"@, Tone::Cyan),
        (" reset  "@, Tone::DarkGray),
        ("⏭️"@, Tone::Default),
        ("[n]"@, Tone::Cyan),
        (" next  "@, Tone::DarkGray),
        ("🚪"@, Tone::Default),
        ("[q]"@, Tone::Cyan),
        (" quit"@, Tone::DarkGray),
    ]
}

pub open spec fn closing_section() -> Seq<Seq<SpanView>> {
    seq![blank(), one(rule(), Tone::DarkGray), key_bar()]
}

/// All lines of the detail panel, section by section.
pub open spec fn detail_view(d: DetailView) -> Seq<Seq<SpanView>> {
    title_section(d) + commands_section(d.commands@) + notes_section(d.notes@) + instructions_section(
        d.instructions@,
    ) + status_section(d) + hints_section(d.hints@, d.hint_level as nat) + closing_section()
}

/// The revealed hints, as the detail panel shows them: just before the
/// closing three lines (and the count of hints still hidden, if any) stand
/// the first `min(hint_level, hints.len())` hints, every one of them, in
/// order, the hint at index `j` as `   {j+1}. {hint}`, after a blank line and
/// the `HINTS` heading.
pub proof fn law_detail_hints(d: DetailView)
    requires
        d.hint_level > 0,
    ensures
        ({
            let v = detail_view(d);
            let hs = d.hints@;
            let level = d.hint_level as int;
            let k = if level < hs.len() { level } else { hs.len() as int };
            let hidden: int = if hs.len() > level { 1 } else { 0 };
            let base = v.len() - 3 - hidden - k;
            &&& base >= 2
            &&& v[base - 2] == blank()
            &&& v[base - 1] == one(" 💡 HINTS"@, Tone::YellowBold)
            &&& forall|j: int|
                0 <= j < k ==> #[trigger] v[base + j] == one(
                    "   "@ + decimal((j + 1) as nat) + ". "@ + hs[j]@,
                    Tone::Yellow,
                )
            &&& hs.len() > level ==> v[base + k] == one(
                "   ("@ + decimal((hs.len() - level) as nat) + " more — press h)"@,
                Tone::DarkGray,
            )
            &&& v[v.len() - 3] == blank()
            &&& v[v.len() - 2] == one(rule(), Tone::DarkGray)
        }),
{
    let v = detail_view(d);
    let hs = d.hints@;
    let level = d.hint_level as int;
    let k = if level < hs.len() { level } else { hs.len() as int };
    let front = title_section(d) + commands_section(d.commands@) + notes_section(d.notes@)
        + instructions_section(d.instructions@) + status_section(d);
    let h = hints_section(hs, d.hint_level as nat);
    let shown = hint_lines(hs.take(k));
    let more: Seq<Seq<SpanView>> = if hs.len() > level {
        seq![one("   ("@ + decimal((hs.len() - level) as nat) + " more — press h)"@, Tone::DarkGray)]
    } else {
        Seq::empty()
    };
    assert(h == seq![blank(), one(" 💡 HINTS"@, Tone::YellowBold)] + shown + more);
    assert(v == front + h + closing_section());
    assert(front.len() >= 2);
    assert forall|j: int| 0 <= j < k implies #[trigger] v[front.len() as int + 2 + j] == one(
        "   "@ + decimal((j + 1) as nat) + ". "@ + hs[j]@,
        Tone::Yellow,
    ) by {
        assert(v[front.len() as int + 2 + j] == h[2 + j]);
        assert(h[2 + j] == shown[j]);
    }
    assert(v[front.len() as int] == h[0]);
    assert(v[front.len() as int + 1] == h[1]);
    if hs.len() > level {
        assert(v[front.len() as int + 2 + k] == h[2 + k]);
        assert(h[2 + k] == more[0]);
    }
}

/// While no hint is revealed the hints make no difference to the detail
/// panel: two exercises that differ only in their hints look the same.
pub proof fn law_hints_hidden_at_level_zero(d1: DetailView, d2: DetailView)
    requires
        d1.hint_level == 0,
        d2.hint_level == 0,
        d1.difficulty == d2.difficulty,
        d1.title@ == d2.title@,
        d1.commands@ == d2.commands@,
        d1.notes@ == d2.notes@,
        d1.instructions@ == d2.instructions@,
        d1.flash == d2.flash,
        d1.status == d2.status,
        d1.diff@ == d2.diff@,
    ensures
        detail_view(d1) == detail_view(d2),
{
    assert(title_section(d1) == title_section(d2));
    assert(status_section(d1) == status_section(d2));
    assert(detail_view(d1) =~= detail_view(d2));
}

/// The top of the detail panel: the title behind one, two or three stars
/// (three for any difficulty but one and two), and a blank line; when the
/// exercise teaches commands, a `COMMANDS` heading, one line per command in
/// order (its key padded to eight columns in green bold, then its
/// description in white), and a blank line; when there are notes, each of
/// their lines indented in dark gray, and a blank line; then the
/// `INSTRUCTIONS` heading, each line of the trimmed instructions indented in
/// white, a blank line and the rule.
pub proof fn law_detail_top(d: DetailView)
    ensures
        ({
            let v = detail_view(d);
            let cs = d.commands@;
            let c = cs.len() as int;
            let nl = lines(d.notes@);
            let il = lines(trim(d.instructions@));
            let a: int = if c == 0 { 2 } else { c + 4 };
            let b: int = if d.notes@.len() == 0 { a } else { a + nl.len() + 1 };
            let star_text = if d.difficulty == 1 {
                "⭐"@
            } else if d.difficulty == 2 {
                "⭐⭐"@
            } else {
                "⭐⭐⭐"@
            };
            &&& v.len() > b + 2 + il.len()
            &&& v[0] == one(" "@ + star_text + " "@ + d.title@, Tone::CyanBold)
            &&& v[1] == blank()
            &&& c > 0 ==> v[2] == one(" ⌨️  COMMANDS"@, Tone::YellowBold) && v[c + 3] == blank()
            &&& forall|j: int|
                0 <= j < c ==> v[3 + j] == seq![
                    ("   "@ + pad_to((#[trigger] cs[j]).key@, 8), Tone::GreenBold),
                    (cs[j].description@, Tone::White),
                ]
            &&& d.notes@.len() > 0 ==> v[a + nl.len()] == blank()
            &&& d.notes@.len() > 0 ==> forall|j: int|
                0 <= j < nl.len() ==> v[a + j] == one("   "@ + #[trigger] nl[j], Tone::DarkGray)
            &&& v[b] == one(" 📋 INSTRUCTIONS"@, Tone::YellowBold)
            &&& forall|j: int| 0 <= j < il.len() ==> v[b + 1 + j] == one("   "@ + #[trigger] il[j], Tone::White)
            &&& v[b + 1 + il.len()] == blank()
            &&& v[b + 2 + il.len()] == one(rule(), Tone::DarkGray)
        }),
{
    let v = detail_view(d);
    let cs = d.commands@;
    let c = cs.len() as int;
    let nl = lines(d.notes@);
    let il = lines(trim(d.instructions@));
    let ts = title_section(d);
    let cm = commands_section(cs);
    let ns = notes_section(d.notes@);
    let is = instructions_section(d.instructions@);
    let rest = status_section(d) + hints_section(d.hints@, d.hint_level as nat) + closing_section();
    assert(v == ts + cm + ns + is + rest);
    assert(v == ts + (cm + (ns + (is + rest))));
    let a: int = if c == 0 { 2 } else { c + 4 };
    let b: int = if d.notes@.len() == 0 { a } else { a + nl.len() + 1 };
    assert(cm.len() == a - 2);
    assert(ns.len() == b - a);
    assert(is.len() == il.len() + 3);
    assert(v[0] == ts[0]);
    assert(v[1] == ts[1]);
    if c > 0 {
        assert(v[2] == cm[0]);
        assert(v[c + 3] == cm[c + 1]);
        assert forall|j: int| 0 <= j < c implies v[3 + j] == seq![
            ("   "@ + pad_to((#[trigger] cs[j]).key@, 8), Tone::GreenBold),
            (cs[j].description@, Tone::White),
        ] by {
            assert(v[3 + j] == cm[1 + j]);
        }
    }
    if d.notes@.len() > 0 {
        assert(v[a + nl.len()] == ns[nl.len() as int]);
        assert forall|j: int| 0 <= j < nl.len() implies v[a + j] == one("   "@ + #[trigger] nl[j], Tone::DarkGray) by {
            assert(v[a + j] == ns[j]);
        }
    }
    assert(v[b] == is[0]);
    assert forall|j: int| 0 <= j < il.len() implies v[b + 1 + j] == one("   "@ + #[trigger] il[j], Tone::White) by {
        assert(v[b + 1 + j] == is[1 + j]);
    }
    assert(v[b + 1 + il.len()] == is[il.len() as int + 1]);
    assert(v[b + 2 + il.len()] == is[il.len() as int + 2]);
}

proof fn lemma_diff_lines(ds: Seq<DiffLine>)
    ensures
        diff_lines(ds).len() == 2 * ds.len(),
        forall|j: int|
            0 <= j < ds.len() ==> diff_lines(ds)[2 * j] == diff_pair(#[trigger] ds[j])[0]
                && diff_lines(ds)[2 * j + 1] == diff_pair(ds[j])[1],
    decreases ds.len(),
{
    if ds.len() > 0 {
        let p = ds.drop_last();
        lemma_diff_lines(p);
        assert forall|j: int| 0 <= j < ds.len() implies diff_lines(ds)[2 * j] == diff_pair(
            #[trigger] ds[j],
        )[0] && diff_lines(ds)[2 * j + 1] == diff_pair(ds[j])[1] by {
            if j < p.len() {
                assert(p[j] == ds[j]);
            }
        }
    }
}

/// The status part of the detail panel, which follows the rule that closes
/// the instructions and ends where the hints (or, with none revealed, the
/// closing lines) begin. A flash message, when there is one, stands there
/// alone. Otherwise a passed exercise says so, one not started says how to
/// begin, and a failed one gives the number of differences, then the first
/// five of them (fewer if there are fewer), each as a `got` line and an
/// `expected` line, in order, then how many more there are, if any.
pub proof fn law_detail_status(d: DetailView)
    ensures
        ({
            let v = detail_view(d);
            let hs = d.hints@;
            let level = d.hint_level as int;
            let k = if level < hs.len() { level } else { hs.len() as int };
            let hidden: int = if hs.len() > level { 1 } else { 0 };
            let hint_count: int = if level == 0 { 0 } else { 2 + k + hidden };
            let end = v.len() - 3 - hint_count;
            let ds = d.diff@;
            let n = ds.len();
            let m: int = if n < 5 { n as int } else { 5 };
            let more: int = if n > 5 { 1 } else { 0 };
            let failed = d.flash is None && d.status == ExerciseStatus::Failed;
            let start = if failed { end - more - 2 * m - 1 } else { end - 1 };
            &&& start >= 1
            &&& v[start - 1] == one(rule(), Tone::DarkGray)
            &&& d.flash is Some ==> v[start] == one(" "@ + d.flash->Some_0@, Tone::GreenBold)
            &&& d.flash is None && d.status == ExerciseStatus::Passed ==> v[start] == one(
                " ✅ PASSED!"@,
                Tone::GreenBold,
            )
            &&& d.flash is None && d.status == ExerciseStatus::NotStarted ==> v[start] == one(
                " ⬜ Not started — edit the .hxt file to begin"@,
                Tone::DarkGray,
            )
            &&& failed ==> v[start] == one(
                " ❌ "@ + decimal(n) + " difference"@ + (if n == 1 { ""@ } else { "s"@ }) + " found"@,
                Tone::RedBold,
            )
            &&& failed ==> forall|j: int|
                0 <= j < m ==> v[start + 1 + 2 * j] == one(
                    "   line "@ + decimal((#[trigger] ds[j]).line_num as nat) + ": got \""@ + ds[j].got@ + "\""@,
                    Tone::Red,
                ) && v[start + 2 + 2 * j] == one(
                    "          expected \""@ + ds[j].expected@ + "\""@,
                    Tone::Green,
                )
            &&& failed && n > 5 ==> v[end - 1] == one(
                "   ... and "@ + decimal((n - 5) as nat) + " more"@,
                Tone::DarkGray,
            )
        }),
{
    let v = detail_view(d);
    let hs = d.hints@;
    let level = d.hint_level as int;
    let k = if level < hs.len() { level } else { hs.len() as int };
    let front = title_section(d) + commands_section(d.commands@) + notes_section(d.notes@)
        + instructions_section(d.instructions@);
    let st = status_section(d);
    let h = hints_section(hs, d.hint_level as nat);
    assert(v == front + st + h + closing_section());
    let ins = instructions_section(d.instructions@);
    assert(ins[ins.len() - 1] == one(rule(), Tone::DarkGray));
    assert(front[front.len() - 1] == ins[ins.len() - 1]);
    if level > 0 {
        let shown = hint_lines(hs.take(k));
        let more: Seq<Seq<SpanView>> = if hs.len() > level {
            seq![one("   ("@ + decimal((hs.len() - level) as nat) + " more — press h)"@, Tone::DarkGray)]
        } else {
            Seq::empty()
        };
        assert(h == seq![blank(), one(" 💡 HINTS"@, Tone::YellowBold)] + shown + more);
    }
    let hidden: int = if hs.len() > level { 1 } else { 0 };
    let hint_count: int = if level == 0 { 0 } else { 2 + k + hidden };
    assert(h.len() == hint_count);
    let f = front.len() as int;
    assert(v.len() - 3 - hint_count == f + st.len());
    assert(v[f - 1] == front[f - 1]);
    assert forall|j: int| 0 <= j < st.len() implies #[trigger] v[f + j] == st[j] by {}
    let ds = d.diff@;
    let n = ds.len();
    if d.flash is None && d.status == ExerciseStatus::Failed {
        let m: int = if n < 5 { n as int } else { 5 };
        let t = ds.take(m);
        lemma_diff_lines(t);
        let dl = diff_lines(t);
        let header = one(
            " ❌ "@ + decimal(n) + " difference"@ + (if n == 1 { ""@ } else { "s"@ }) + " found"@,
            Tone::RedBold,
        );
        let tail: Seq<Seq<SpanView>> = if n > 5 {
            seq![one("   ... and "@ + decimal((n - 5) as nat) + " more"@, Tone::DarkGray)]
        } else {
            Seq::empty()
        };
        assert(st == seq![header] + dl + tail);
        assert(v[f] == st[0]);
        assert forall|j: int| 0 <= j < m implies v[f + 1 + 2 * j] == one(
            "   line "@ + decimal((#[trigger] ds[j]).line_num as nat) + ": got \""@ + ds[j].got@ + "\""@,
            Tone::Red,
        ) && v[f + 2 + 2 * j] == one("          expected \""@ + ds[j].expected@ + "\""@, Tone::Green) by {
            assert(t[j] == ds[j]);
            assert(v[f + 1 + 2 * j] == st[1 + 2 * j]);
            assert(v[f + 2 + 2 * j] == st[2 + 2 * j]);
            assert(st[1 + 2 * j] == dl[2 * j]);
            assert(st[2 + 2 * j] == dl[2 * j + 1]);
        }
        if n > 5 {
            assert(v[f + st.len() - 1] == st[st.len() - 1]);
        }
    } else {
        assert(v[f] == st[0]);
    }
}

fn push_title(out: &mut Vec<StyledLine>, d: &DetailView)
    ensures
        lines_view(final(out)@) == lines_view(old(out)@) + title_section(*d),
{
    let s = if d.difficulty == 1 {
        "⭐"
    } else if d.difficulty == 2 {
        "⭐⭐"
    } else {
        "⭐⭐⭐"
    };
    let mut t: Vec<char> = Vec::new();
    push_str(&mut t, " ");
    push_str(&mut t, s);
    push_str(&mut t, " ");
    push_str(&mut t, d.title.as_str());
    push_single(out, &t, Tone::CyanBold);
    push_blank(out);
    assert(lines_view(out@) =~= lines_view(old(out)@) + title_section(*d));
}

fn push_commands(out: &mut Vec<StyledLine>, cs: &Vec<CommandView>)
    ensures
        lines_view(final(out)@) == lines_view(old(out)@) + commands_section(cs@),
{
    if cs.len() == 0 {
        assert(lines_view(out@) =~= lines_view(old(out)@) + commands_section(cs@));
        return;
    }
    push_literal_line(out, " ⌨️  COMMANDS", Tone::YellowBold);
    let ghost start = lines_view(out@);
    let mut i: usize = 0;
    while i < cs.len()
        invariant
            i <= cs@.len(),
            lines_view(out@) == start + cs@.take(i as int).map_values(|c: CommandView| command_line(c)),
        decreases cs@.len() - i,
    {
        let c = &cs[i];
        let mut k: Vec<char> = Vec::new();
        push_str(&mut k, "   ");
        let key = chars_of(c.key.as_str());
        push_str(&mut k, c.key.as_str());
        if key.len() < 8 {
            push_repeated(&mut k, ' ', 8 - key.len());
        }
        assert(k@ =~= "   "@ + pad_to(c.key@, 8));
        let mut spans: Vec<StyledSpan> = Vec::new();
        spans.push(span_of(&k, Tone::GreenBold));
        spans.push(literal(c.description.as_str(), Tone::White));
        let l = line_of(spans);
        assert(line_view(l) =~= command_line(*c));
        push_line(out, l);
        assert(cs@.take(i + 1).map_values(|c: CommandView| command_line(c)) =~= cs@.take(i as int).map_values(
            |c: CommandView| command_line(c),
        ).push(command_line(cs@[i as int])));
        i += 1;
    }
    assert(cs@.take(i as int) =~= cs@);
    push_blank(out);
    assert(lines_view(out@) =~= lines_view(old(out)@) + commands_section(cs@));
}

/// Appends each line of `text`, indented by three spaces, in `tone`.
fn push_indented(out: &mut Vec<StyledLine>, text: &Vec<char>, tone: Tone)
    ensures
        lines_view(final(out)@) == lines_view(old(out)@) + indented(lines(text@), tone),
{
    let ls = lines_of(text);
    let mut i: usize = 0;
    while i < ls.len()
        invariant
            i <= ls@.len(),
            crate::text::char_lines(ls@) == lines(text@),
            lines_view(out@) == lines_view(old(out)@) + indented(lines(text@).take(i as int), tone),
        decreases ls@.len() - i,
    {
        let mut t: Vec<char> = Vec::new();
        push_str(&mut t, "   ");
        let ghost before = t@;
        t.append(&mut ls[i].clone());
        assert(ls@[i as int]@ == lines(text@)[i as int]);
        push_single(out, &t, tone);
        assert(indented(lines(text@).take(i + 1), tone) =~= indented(lines(text@).take(i as int), tone).push(
            one("   "@ + lines(text@)[i as int], tone),
        ));
        i += 1;
    }
    assert(lines(text@).take(i as int) =~= lines(text@));
}

fn push_notes(out: &mut Vec<StyledLine>, notes: &String)
    ensures
        lines_view(final(out)@) == lines_view(old(out)@) + notes_section(notes@),
{
    let n = chars_of(notes.as_str());
    if n.len() == 0 {
        assert(lines_view(out@) =~= lines_view(old(out)@) + notes_section(notes@));
        return;
    }
    push_indented(out, &n, Tone::DarkGray);
    push_blank(out);
    assert(lines_view(out@) =~= lines_view(old(out)@) + notes_section(notes@));
}

fn push_instructions(out: &mut Vec<StyledLine>, instructions: &String)
    ensures
        lines_view(final(out)@) == lines_view(old(out)@) + instructions_section(instructions@),
{
    push_literal_line(out, " 📋 INSTRUCTIONS", Tone::YellowBold);
    let t = trim_chars(&chars_of(instructions.as_str()));
    push_indented(out, &t, Tone::White);
    push_blank(out);
    push_literal_line(out, " ─────────────────────────────────────────", Tone::DarkGray);
    assert(lines_view(out@) =~= lines_view(old(out)@) + instructions_section(instructions@));
}

fn push_diffs(out: &mut Vec<StyledLine>, ds: &Vec<DiffLine>, count: usize)
    requires
        count <= ds@.len(),
    ensures
        lines_view(final(out)@) == lines_view(old(out)@) + diff_lines(ds@.take(count as int)),
{
    let mut i: usize = 0;
    assert(diff_lines(ds@.take(0)) =~= Seq::<Seq<SpanView>>::empty());
    assert(lines_view(out@) =~= lines_view(old(out)@) + diff_lines(ds@.take(0)));
    while i < count
        invariant
            i <= count <= ds@.len(),
            lines_view(out@) == lines_view(old(out)@) + diff_lines(ds@.take(i as int)),
        decreases count - i,
    {
        let d = &ds[i];
        let mut g: Vec<char> = Vec::new();
        push_str(&mut g, "   line ");
        push_decimal(&mut g, d.line_num);
        push_str(&mut g, ": got \"");
        push_str(&mut g, d.got.as_str());
        push_str(&mut g, "\"");
        let mut e: Vec<char> = Vec::new();
        push_str(&mut e, "          expected \"");
        push_str(&mut e, d.expected.as_str());
        push_str(&mut e, "\"");
        push_single(out, &g, Tone::Red);
        push_single(out, &e, Tone::Green);
        assert(ds@.take(i + 1).drop_last() =~= ds@.take(i as int));
        assert(ds@.take(i + 1).last() == ds@[i as int]);
        i += 1;
    }
}

fn push_status(out: &mut Vec<StyledLine>, d: &DetailView)
    ensures
        lines_view(final(out)@) == lines_view(old(out)@) + status_section(*d),
{
    match &d.flash {
        Some(msg) => {
            let mut t: Vec<char> = Vec::new();
            push_str(&mut t, " ");
            push_str(&mut t, msg.as_str());
            push_single(out, &t, Tone::GreenBold);
        },
        None => match d.status {
            ExerciseStatus::Passed => {
                push_literal_line(out, " ✅ PASSED!", Tone::GreenBold);
            },
            ExerciseStatus::NotStarted => {
                push_literal_line(out, " ⬜ Not started — edit the .hxt file to begin", Tone::DarkGray);
            },
            ExerciseStatus::Failed => {
                let n = d.diff.len();
                let mut t: Vec<char> = Vec::new();
                push_str(&mut t, " ❌ ");
                push_decimal(&mut t, n);
                push_str(&mut t, " difference");
                push_str(&mut t, if n == 1 { "" } else { "s" });
                push_str(&mut t, " found");
                push_single(out, &t, Tone::RedBold);
                let shown = if n < 5 { n } else { 5 };
                push_diffs(out, &d.diff, shown);
                if n > 5 {
                    let mut m: Vec<char> = Vec::new();
                    push_str(&mut m, "   ... and ");
                    push_decimal(&mut m, n - 5);
                    push_str(&mut m, " more");
                    push_single(out, &m, Tone::DarkGray);
                }
            },
        },
    }
    assert(lines_view(out@) =~= lines_view(old(out)@) + status_section(*d));
}

fn push_hints(out: &mut Vec<StyledLine>, hs: &Vec<String>, level: usize)
    ensures
        lines_view(final(out)@) == lines_view(old(out)@) + hints_section(hs@, level as nat),
{
    if level == 0 {
        assert(lines_view(out@) =~= lines_view(old(out)@) + hints_section(hs@, level as nat));
        return;
    }
    push_blank(out);
    push_literal_line(out, " 💡 HINTS", Tone::YellowBold);
    let ghost start = lines_view(out@);
    let mut i: usize = 0;
    while i < hs.len()
        invariant
            i <= hs@.len(),
            lines_view(out@) == start + hint_lines(hs@.take(if i < level { i as int } else { level as int })),
        decreases hs@.len() - i,
    {
        if i < level {
            let mut t: Vec<char> = Vec::new();
            push_str(&mut t, "   ");
            push_decimal(&mut t, i + 1);
            push_str(&mut t, ". ");
            push_str(&mut t, hs[i].as_str());
            push_single(out, &t, Tone::Yellow);
            assert(hint_lines(hs@.take(i + 1)) =~= hint_lines(hs@.take(i as int)).push(
                one("   "@ + decimal((i + 1) as nat) + ". "@ + hs@[i as int]@, Tone::Yellow),
            ));
        }
        i += 1;
    }
    let remaining = hs.len().saturating_sub(level);
    if remaining > 0 {
        let mut t: Vec<char> = Vec::new();
        push_str(&mut t, "   (");
        push_decimal(&mut t, remaining);
        push_str(&mut t, " more — press h)");
        push_single(out, &t, Tone::DarkGray);
    }
    assert(lines_view(out@) =~= lines_view(old(out)@) + hints_section(hs@, level as nat));
}

fn push_closing(out: &mut Vec<StyledLine>)
    ensures
        lines_view(final(out)@) == lines_view(old(out)@) + closing_section(),
{
    push_blank(out);
    push_literal_line(out, " ─────────────────────────────────────────", Tone::DarkGray);
    let mut spans: Vec<StyledSpan> = Vec::new();
    spans.push(literal(" 💡", Tone::Default));
    spans.push(literal("[h]", Tone::Cyan));
    spans.push(literal(" hint  ", Tone::DarkGray));
    spans.push(literal("🔄", Tone::Default));
    spans.push(literal("[r]", Tone::Cyan));
    spans.push(literal(" reset  ", Tone::DarkGray));
    spans.push(literal("⏭️", Tone::Default));
    spans.push(literal("[n]", Tone::Cyan));
    spans.push(literal(" next  ", Tone::DarkGray));
    spans.push(literal("🚪", Tone::Default));
    spans.push(literal("[q]", Tone::Cyan));
    spans.push(literal(" quit", Tone::DarkGray));
    let l = line_of(spans);
    assert(line_view(l) =~= key_bar());
    push_line(out, l);
    assert(lines_view(out@) =~= lines_view(old(out)@) + closing_section());
}

/// The lines of the detail panel: title with difficulty stars, the
/// commands taught, notes, instructions, then the flash message or the
/// exercise's status (with up to five differences), the revealed hints and
/// the key bar.
pub fn exercise_detail_lines(d: &DetailView) -> (ls: Vec<StyledLine>)
    ensures
        lines_view(ls@) == detail_view(*d),
{
    let mut out: Vec<StyledLine> = Vec::new();
    push_title(&mut out, d);
    push_commands(&mut out, &d.commands);
    push_notes(&mut out, &d.notes);
    push_instructions(&mut out, &d.instructions);
    push_status(&mut out, d);
    push_hints(&mut out, &d.hints, d.hint_level);
    push_closing(&mut out);
    assert(lines_view(out@) =~= detail_view(*d));
    out
}

// ---------------------------------------------------------------- help

/// The lines of the help popup: the keys and what they do.
pub open spec fn help_view() -> Seq<Seq<SpanView>> {
    seq![
        one(" 🏋️ Helix Trainer — Help"@, Tone::CyanBold),
        blank(),
        seq![("  j/↓    "@, Tone::Green), ("Next exercise"@, Tone::Default)],
        seq![("  k/↑    "@, Tone::Green), ("Previous exercise"@, Tone::Default)],
        seq![("  h      "@, Tone::Green), ("Reveal next hint"@, Tone::Default)],
        seq![("  n      "@, Tone::Green), ("Jump to next incomplete"@, Tone::Default)],
        seq![("  r      "@, Tone::Green), ("Reset current exercise"@, Tone::Default)],
        seq![("  ?      "@, Tone::Green), ("Toggle this help"@, Tone::Default)],
        seq![("  q      "@, Tone::Green), ("Quit"@, Tone::Default)],
        blank(),
        one("  Edit .hxt files in your editor — changes"@, Tone::DarkGray),
        one("  are detected automatically on save."@, Tone::DarkGray),
        blank(),
        one("  Press ? or Esc to close"@, Tone::DarkGray),
    ]
}

fn push_key_line(out: &mut Vec<StyledLine>, key: &str, what: &str)
    ensures
        lines_view(final(out)@) == lines_view(old(out)@).push(
            seq![(key@, Tone::Green), (what@, Tone::Default)],
        ),
{
    let mut spans: Vec<StyledSpan> = Vec::new();
    spans.push(literal(key, Tone::Green));
    spans.push(literal(what, Tone::Default));
    let l = line_of(spans);
    assert(line_view(l) =~= seq![(key@, Tone::Green), (what@, Tone::Default)]);
    push_line(out, l);
}

/// The lines of the help popup (see [`help_view`]).
pub fn help_lines() -> (ls: Vec<StyledLine>)
    ensures
        lines_view(ls@) == help_view(),
{
    let mut out: Vec<StyledLine> = Vec::new();
    push_literal_line(&mut out, " 🏋️ Helix Trainer — Help", Tone::CyanBold);
    push_blank(&mut out);
    push_key_line(&mut out, "  j/↓    ", "Next exercise");
    push_key_line(&mut out, "  k/↑    ", "Previous exercise");
    push_key_line(&mut out, "  h      ", "Reveal next hint");
    push_key_line(&mut out, "  n      ", "Jump to next incomplete");
    push_key_line(&mut out, "  r      ", "Reset current exercise");
    push_key_line(&mut out, "  ?      ", "Toggle this help");
    push_key_line(&mut out, "  q      ", "Quit");
    push_blank(&mut out);
    push_literal_line(&mut out, "  Edit .hxt files in your editor — changes", Tone::DarkGray);
    push_literal_line(&mut out, "  are detected automatically on save.", Tone::DarkGray);
    push_blank(&mut out);
    push_literal_line(&mut out, "  Press ? or Esc to close", Tone::DarkGray);
    assert(lines_view(out@) =~= help_view());
    out
}

} // verus!
