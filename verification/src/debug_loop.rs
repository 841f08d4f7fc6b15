//! Debug loop tracker: hypothesis → instrument → reproduce → analyze → fix →
//! verify.
//!
//! Every instrumentation line carries the literal marker `[rivo-debug]`.  The
//! tracker keeps the hypotheses, the captured marker lines and the current
//! phase; it renders nothing.
use vstd::prelude::*;

use crate::text::{
    chars_eq, chars_of, contains_chars, contains_seq, lemma_split_by_step, lines_of,
    lemma_trim_keeps_occurrence, split_by, split_lines, string_of, trim, trim_chars,
};

verus! {

/// Marker that every instrumentation log must contain. Literal, case-sensitive.
pub const RIVO_DEBUG_MARKER: &'static str = "[rivo-debug]";

/// One hypothesis of the set generated at loop start.
#[derive(Debug, Clone, PartialEq, Eq)]
pub struct Hypothesis {
    pub id: usize,
    pub text: String,
}

/// A single `[rivo-debug]` log line captured from tool output or a terminal.
#[derive(Debug, Clone, PartialEq, Eq)]
pub struct DebugLogEntry {
    /// Raw line that contained the marker.
    pub raw: String,
    /// Hypothesis id parsed from the line (`hypothesisId=2` or `hypothesis=2`).
    pub hypothesis_id: Option<usize>,
}

/// Phase of the debug loop.
#[derive(Debug, Clone, Copy, PartialEq, Eq, Structural)]
pub enum DebugPhase {
    Hypothesize,
    Instrument,
    Reproduce,
    Analyze,
    Fix,
    Verify,
    Solved,
}

/// Position of a phase in the loop, from 0 (`Hypothesize`) to 6 (`Solved`).
pub open spec fn phase_rank(p: DebugPhase) -> int {
    match p {
        DebugPhase::Hypothesize => 0,
        DebugPhase::Instrument => 1,
        DebugPhase::Reproduce => 2,
        DebugPhase::Analyze => 3,
        DebugPhase::Fix => 4,
        DebugPhase::Verify => 5,
        DebugPhase::Solved => 6,
    }
}

/// The phase after `p`; `Solved` stays `Solved`.
pub open spec fn spec_next_phase(p: DebugPhase) -> DebugPhase {
    match p {
        DebugPhase::Hypothesize => DebugPhase::Instrument,
        DebugPhase::Instrument => DebugPhase::Reproduce,
        DebugPhase::Reproduce => DebugPhase::Analyze,
        DebugPhase::Analyze => DebugPhase::Fix,
        DebugPhase::Fix => DebugPhase::Verify,
        DebugPhase::Verify => DebugPhase::Solved,
        DebugPhase::Solved => DebugPhase::Solved,
    }
}

impl Default for DebugPhase {
    fn default() -> (p: Self)
        ensures
            p == DebugPhase::Hypothesize,
    {
        DebugPhase::Hypothesize
    }
}

impl DebugPhase {
    pub fn label(self) -> (s: &'static str)
        ensures
            s@ == (match self {
                DebugPhase::Hypothesize => "hypothesize"@,
                DebugPhase::Instrument => "instrument"@,
                DebugPhase::Reproduce => "reproduce"@,
                DebugPhase::Analyze => "analyze"@,
                DebugPhase::Fix => "fix"@,
                DebugPhase::Verify => "verify"@,
                DebugPhase::Solved => "solved"@,
            }),
    {
        match self {
            DebugPhase::Hypothesize => "hypothesize",
            DebugPhase::Instrument => "instrument",
            DebugPhase::Reproduce => "reproduce",
            DebugPhase::Analyze => "analyze",
            DebugPhase::Fix => "fix",
            DebugPhase::Verify => "verify",
            DebugPhase::Solved => "solved",
        }
    }

    pub fn next(self) -> (p: Self)
        ensures
            p == spec_next_phase(self),
    {
        match self {
            DebugPhase::Hypothesize => DebugPhase::Instrument,
            DebugPhase::Instrument => DebugPhase::Reproduce,
            DebugPhase::Reproduce => DebugPhase::Analyze,
            DebugPhase::Analyze => DebugPhase::Fix,
            DebugPhase::Fix => DebugPhase::Verify,
            DebugPhase::Verify => DebugPhase::Solved,
            DebugPhase::Solved => DebugPhase::Solved,
        }
    }
}

/// `next` moves exactly one step forward until `Solved`, which it keeps.
pub proof fn law_next_phase_advances(p: DebugPhase)
    ensures
        p != DebugPhase::Solved ==> phase_rank(spec_next_phase(p)) == phase_rank(p) + 1,
        p == DebugPhase::Solved ==> spec_next_phase(p) == DebugPhase::Solved,
{
}

/// `n` applications of `next`.
pub open spec fn next_phase_n(p: DebugPhase, n: nat) -> DebugPhase
    decreases n,
{
    if n == 0 {
        p
    } else {
        spec_next_phase(next_phase_n(p, (n - 1) as nat))
    }
}

/// From any phase, six applications of `next` reach `Solved`.
pub proof fn law_next_phase_reaches_solved(p: DebugPhase)
    ensures
        next_phase_n(p, 6) == DebugPhase::Solved,
{
    reveal_with_fuel(next_phase_n, 7);
}

/// The marker's characters.
pub open spec fn marker() -> Seq<char> {
    RIVO_DEBUG_MARKER@
}

/// `line` contains the marker.
pub open spec fn has_marker(line: Seq<char>) -> bool {
    contains_seq(line, marker())
}

/// The trimmed lines among `ls` that contain the marker, in order.
pub open spec fn marker_lines(ls: Seq<Seq<char>>) -> Seq<Seq<char>>
    decreases ls.len(),
{
    if ls.len() == 0 {
        Seq::empty()
    } else {
        let r = marker_lines(ls.drop_last());
        if has_marker(ls.last()) {
            r.push(trim(ls.last()))
        } else {
            r
        }
    }
}

/// The trimmed marker lines of a text blob.
pub open spec fn extracted_lines(text: Seq<char>) -> Seq<Seq<char>> {
    marker_lines(lines_of(text))
}

/// Characters that may stand inside an id token: ASCII letters and digits,
/// `'='` and `'_'`.
pub open spec fn is_token_char(c: char) -> bool {
    ('0' <= c && c <= '9') || ('a' <= c && c <= 'z') || ('A' <= c && c <= 'Z') || c == '='
        || c == '_'
}

/// The separator of id tokens.
pub open spec fn token_sep() -> spec_fn(char) -> bool {
    |c: char| !is_token_char(c)
}

/// An ASCII digit.
pub open spec fn is_digit(c: char) -> bool {
    '0' <= c && c <= '9'
}

/// Decimal value of a digit string.
pub open spec fn digits_value(d: Seq<char>) -> int
    decreases d.len(),
{
    if d.len() == 0 {
        0
    } else {
        digits_value(d.drop_last()) * 10 + (d.last() as int - '0' as int)
    }
}

/// What `str::parse::<usize>` gives on a string without `'+'`: the value of a
/// non-empty run of ASCII digits that fits in a `usize`, else nothing.
pub open spec fn parse_usize(d: Seq<char>) -> Option<usize> {
    if d.len() > 0 && (forall|i: int| 0 <= i < d.len() ==> is_digit(#[trigger] d[i]))
        && digits_value(d) <= usize::MAX {
        Some(digits_value(d) as usize)
    } else {
        None
    }
}

/// `t` starts with `key` and the rest parses as a `usize`.
pub open spec fn keyed_value(t: Seq<char>, key: Seq<char>) -> Option<usize> {
    if t.len() >= key.len() && t.take(key.len() as int) == key {
        parse_usize(t.skip(key.len() as int))
    } else {
        None
    }
}

/// The id that a single token names, if any.
pub open spec fn token_id(t: Seq<char>) -> Option<usize> {
    match keyed_value(t, "hypothesisId="@) {
        Some(n) => Some(n),
        None => keyed_value(t, "hypothesis="@),
    }
}

/// The id of the first token that names one.
pub open spec fn first_token_id(ts: Seq<Seq<char>>) -> Option<usize>
    decreases ts.len(),
{
    if ts.len() == 0 {
        None
    } else {
        match token_id(ts[0]) {
            Some(n) => Some(n),
            None => first_token_id(ts.drop_first()),
        }
    }
}

/// The hypothesis id of a log line: the first token (a maximal run of ASCII
/// letters, digits, `'='` and `'_'`) of the form `hypothesisId=N` or
/// `hypothesis=N`.
pub open spec fn hypothesis_id_of(line: Seq<char>) -> Option<usize> {
    first_token_id(split_by(line, token_sep()))
}

/// The log entry that recording `raw` appends.
pub open spec fn log_entry_for(raw: Seq<char>) -> (Seq<char>, Option<usize>) {
    (raw, hypothesis_id_of(raw))
}

/// The value of a digit string is never negative.
proof fn lemma_digits_value_nonneg(d: Seq<char>)
    requires
        forall|i: int| 0 <= i < d.len() ==> is_digit(#[trigger] d[i]),
    ensures
        digits_value(d) >= 0,
    decreases d.len(),
{
    if d.len() > 0 {
        assert forall|i: int| 0 <= i < d.drop_last().len() implies is_digit(
            #[trigger] d.drop_last()[i],
        ) by {
            assert(d.drop_last()[i] == d[i]);
        }
        lemma_digits_value_nonneg(d.drop_last());
    }
}

/// On digit strings the value never shrinks as digits are appended.
proof fn lemma_digits_value_mono(d: Seq<char>, k: int)
    requires
        0 <= k <= d.len(),
        forall|i: int| 0 <= i < d.len() ==> is_digit(#[trigger] d[i]),
    ensures
        digits_value(d.take(k)) <= digits_value(d),
    decreases d.len() - k,
{
    if k < d.len() {
        let e = d.take(k + 1);
        assert forall|i: int| 0 <= i < e.len() implies is_digit(#[trigger] e[i]) by {
            assert(e[i] == d[i]);
        }
        lemma_digits_value_mono(d, k + 1);
        assert(e.drop_last() =~= d.take(k));
        assert forall|i: int| 0 <= i < d.take(k).len() implies is_digit(
            #[trigger] d.take(k)[i],
        ) by {
            assert(d.take(k)[i] == d[i]);
        }
        lemma_digits_value_nonneg(d.take(k));
    } else {
        assert(d.take(k) =~= d);
    }
}

/// `str::parse::<usize>` on characters that hold no `'+'`.
fn parse_usize_chars(d: &[char]) -> (r: Option<usize>)
    ensures
        r == parse_usize(d@),
{
    if d.len() == 0 {
        return None;
    }
    let mut acc: usize = 0;
    let mut i: usize = 0;
    while i < d.len()
        invariant
            i <= d@.len(),
            d@.len() > 0,
            forall|j: int| 0 <= j < i ==> is_digit(#[trigger] d@[j]),
            acc as int == digits_value(d@.take(i as int)),
        decreases d@.len() - i,
    {
        let c = d[i];
        if !('0' <= c && c <= '9') {
            assert(!is_digit(d@[i as int]));
            return None;
        }
        let digit = (c as u32 - '0' as u32) as usize;
        assert(d@.take(i + 1).drop_last() =~= d@.take(i as int));
        assert(d@.take(i + 1).last() == c);
        let m = acc.checked_mul(10);
        match m {
            None => {
                proof {
                    self::lemma_overflow_means_none(d@, (i + 1) as int);
                }
                return None;
            },
            Some(m) => {
                match m.checked_add(digit) {
                    None => {
                        proof {
                            self::lemma_overflow_means_none(d@, (i + 1) as int);
                        }
                        return None;
                    },
                    Some(v) => {
                        acc = v;
                    },
                }
            },
        }
        i = i + 1;
    }
    assert(d@.take(d@.len() as int) =~= d@);
    Some(acc)
}

/// If a digit prefix already exceeds `usize::MAX`, the whole string does not
/// parse.
proof fn lemma_overflow_means_none(d: Seq<char>, k: int)
    requires
        0 < k <= d.len(),
        forall|j: int| 0 <= j < k ==> is_digit(#[trigger] d[j]),
        digits_value(d.take(k)) > usize::MAX,
    ensures
        parse_usize(d) is None,
{
    if forall|i: int| 0 <= i < d.len() ==> is_digit(#[trigger] d[i]) {
        lemma_digits_value_mono(d, k);
    }
}

/// `keyed_value` on executable characters.
fn keyed_value_chars(t: &[char], key: &[char]) -> (r: Option<usize>)
    ensures
        r == keyed_value(t@, key@),
{
    if t.len() < key.len() {
        return None;
    }
    let mut head: Vec<char> = Vec::new();
    let mut rest: Vec<char> = Vec::new();
    let mut i: usize = 0;
    while i < t.len()
        invariant
            key@.len() <= t@.len(),
            i <= t@.len(),
            i <= key@.len() ==> head@ == t@.take(i as int) && rest@.len() == 0,
            i > key@.len() ==> head@ == t@.take(key@.len() as int) && rest@ == t@.subrange(
                key@.len() as int,
                i as int,
            ),
        decreases t@.len() - i,
    {
        if i < key.len() {
            head.push(t[i]);
            assert(t@.take(i + 1) =~= t@.take(i as int).push(t@[i as int]));
        } else {
            rest.push(t[i]);
            assert(t@.subrange(key@.len() as int, i + 1) =~= t@.subrange(
                key@.len() as int,
                i as int,
            ).push(t@[i as int]));
            assert(t@.subrange(key@.len() as int, key@.len() as int) =~= Seq::<char>::empty());
        }
        i = i + 1;
    }
    if i == key.len() {
        assert(t@.subrange(key@.len() as int, i as int) =~= Seq::<char>::empty());
    }
    assert(rest@ =~= t@.skip(key@.len() as int));
    if chars_eq(head.as_slice(), key) {
        parse_usize_chars(rest.as_slice())
    } else {
        None
    }
}

/// `token_id` on executable characters.
fn token_id_chars(t: &[char]) -> (r: Option<usize>)
    ensures
        r == token_id(t@),
{
    let k1 = chars_of("hypothesisId=");
    match keyed_value_chars(t, k1.as_slice()) {
        Some(n) => Some(n),
        None => {
            let k2 = chars_of("hypothesis=");
            keyed_value_chars(t, k2.as_slice())
        },
    }
}

/// Whether `c` may stand inside an id token.
fn token_char(c: char) -> (r: bool)
    ensures
        r == is_token_char(c),
{
    ('0' <= c && c <= '9') || ('a' <= c && c <= 'z') || ('A' <= c && c <= 'Z') || c == '='
        || c == '_'
}

/// The id tokens of `v` (pieces between separator characters).
fn split_tokens(v: &[char]) -> (r: Vec<Vec<char>>)
    ensures
        r.deep_view() == split_by(v@, token_sep()),
{
    let ghost sep = token_sep();
    let mut done: Vec<Vec<char>> = Vec::new();
    let mut cur: Vec<char> = Vec::new();
    let mut i: usize = 0;
    assert(v@.take(0) =~= Seq::<char>::empty());
    assert(done.deep_view().push(cur@) =~= seq![Seq::<char>::empty()]);
    while i < v.len()
        invariant
            i <= v@.len(),
            sep == token_sep(),
            split_by(v@.take(i as int), sep) =~~= done.deep_view().push(cur@),
        decreases v@.len() - i,
    {
        proof {
            lemma_split_by_step(v@, i as int, sep);
        }
        if !token_char(v[i]) {
            let ghost before = done.deep_view();
            let piece = cur;
            let ghost pv = piece@;
            done.push(piece);
            cur = Vec::new();
            assert(done.deep_view() =~~= before.push(pv));
        } else {
            cur.push(v[i]);
        }
        i = i + 1;
    }
    assert(v@.take(v@.len() as int) =~= v@);
    let ghost before = done.deep_view();
    done.push(cur);
    assert(done.deep_view() =~~= before.push(cur@));
    done
}

/// When no token before `k` names an id, the first id is that of the tokens
/// from `k` on.
proof fn lemma_first_token_id_skip(ts: Seq<Seq<char>>, k: int)
    requires
        0 <= k <= ts.len(),
        forall|j: int| 0 <= j < k ==> token_id(#[trigger] ts[j]) is None,
    ensures
        first_token_id(ts) == first_token_id(ts.skip(k)),
    decreases k,
{
    if k > 0 {
        assert(token_id(ts[0]) is None);
        let t = ts.drop_first();
        assert forall|j: int| 0 <= j < k - 1 implies token_id(#[trigger] t[j]) is None by {
            assert(t[j] == ts[j + 1]);
        }
        lemma_first_token_id_skip(t, k - 1);
        assert(t.skip(k - 1) =~= ts.skip(k));
    } else {
        assert(ts.skip(0) =~= ts);
    }
}

/// The hypothesis id named in a log line.
fn parse_hypothesis_id(line: &str) -> (r: Option<usize>)
    ensures
        r == hypothesis_id_of(line@),
{
    let v = chars_of(line);
    let ts = split_tokens(v.as_slice());
    let ghost tsv = ts.deep_view();
    let mut k: usize = 0;
    while k < ts.len()
        invariant
            tsv == ts.deep_view(),
            tsv == split_by(line@, token_sep()),
            k <= ts@.len(),
            forall|j: int| 0 <= j < k ==> token_id(#[trigger] tsv[j]) is None,
        decreases ts@.len() - k,
    {
        let t = token_id_chars(ts[k].as_slice());
        assert(tsv[k as int] == ts@[k as int]@);
        if t.is_some() {
            proof {
                lemma_first_token_id_skip(tsv, k as int);
                assert(tsv.skip(k as int)[0] == tsv[k as int]);
            }
            return t;
        }
        k = k + 1;
    }
    proof {
        lemma_first_token_id_skip(tsv, k as int);
        assert(tsv.skip(k as int) =~= Seq::<Seq<char>>::empty());
    }
    None
}

/// Pager-side debug loop state.
///
/// The loop is `Solved` only once the user confirms it; until then the
/// phase moves forward as hypotheses and marker logs arrive.
#[derive(Debug, Clone)]
pub struct DebugLoopState {
    pub hypotheses: Vec<Hypothesis>,
    pub logs: Vec<DebugLogEntry>,
    pub phase: DebugPhase,
    pub instrumented: bool,
}

/// The views of the log entries: raw line and parsed id.
pub open spec fn log_views(logs: Seq<DebugLogEntry>) -> Seq<(Seq<char>, Option<usize>)> {
    logs.map_values(|e: DebugLogEntry| (e.raw@, e.hypothesis_id))
}

/// The phase that `advance_if_ready` moves to.
pub open spec fn advanced_phase(
    phase: DebugPhase,
    n_hypotheses: nat,
    instrumented: bool,
    n_logs: nat,
) -> DebugPhase {
    match phase {
        DebugPhase::Hypothesize => if n_hypotheses >= 2 {
            DebugPhase::Instrument
        } else {
            phase
        },
        DebugPhase::Instrument => if instrumented {
            DebugPhase::Reproduce
        } else {
            phase
        },
        DebugPhase::Reproduce => if n_logs > 0 {
            DebugPhase::Analyze
        } else {
            phase
        },
        _ => phase,
    }
}

impl DebugLoopState {
    /// Consistency of the tracker: hypotheses are numbered 1, 2, … in order,
    /// every captured log carries the marker, and captured logs mean the
    /// code was instrumented.
    pub open spec fn wf(&self) -> bool {
        &&& forall|i: int|
            0 <= i < self.hypotheses@.len() ==> (#[trigger] self.hypotheses@[i]).id == i + 1
        &&& forall|i: int| 0 <= i < self.logs@.len() ==> has_marker((#[trigger] self.logs@[i]).raw@)
        &&& self.logs@.len() > 0 ==> self.instrumented
    }

    pub fn new() -> (s: Self)
        ensures
            s.hypotheses@.len() == 0,
            s.logs@.len() == 0,
            s.phase == DebugPhase::Hypothesize,
            !s.instrumented,
            s.wf(),
    {
        DebugLoopState {
            hypotheses: Vec::new(),
            logs: Vec::new(),
            phase: DebugPhase::Hypothesize,
            instrumented: false,
        }
    }

    /// Record a hypothesis; it gets the next id (1 for the first).
    pub fn push_hypothesis(&mut self, text: String)
        requires
            old(self).hypotheses@.len() < usize::MAX,
        ensures
            final(self).hypotheses@ == old(self).hypotheses@.push(
                Hypothesis { id: (old(self).hypotheses@.len() + 1) as usize, text },
            ),
            final(self).logs@ == old(self).logs@,
            final(self).phase == old(self).phase,
            final(self).instrumented == old(self).instrumented,
            old(self).wf() ==> final(self).wf(),
    {
        let id = self.hypotheses.len() + 1;
        self.hypotheses.push(Hypothesis { id, text });
    }

    /// True if `line` contains the `[rivo-debug]` marker.
    pub fn is_rivo_debug_log(line: &str) -> (r: bool)
        ensures
            r == has_marker(line@),
    {
        let v = chars_of(line);
        let m = chars_of(RIVO_DEBUG_MARKER);
        contains_chars(v.as_slice(), m.as_slice())
    }

    /// The lines of `text` that contain the marker, trimmed, in order.
    pub fn extract_marker_lines(text: &str) -> (r: Vec<String>)
        ensures
            r.deep_view() == extracted_lines(text@),
    {
        let v = chars_of(text);
        let ls = split_lines(v.as_slice());
        let m = chars_of(RIVO_DEBUG_MARKER);
        let ghost lsv = ls.deep_view();
        let mut out: Vec<String> = Vec::new();
        let mut i: usize = 0;
        while i < ls.len()
            invariant
                lsv == ls.deep_view(),
                lsv == lines_of(text@),
                m@ == marker(),
                i <= ls@.len(),
                out.deep_view() =~~= marker_lines(lsv.take(i as int)),
            decreases ls@.len() - i,
        {
            assert(lsv.take(i + 1).drop_last() =~= lsv.take(i as int));
            assert(lsv.take(i + 1).last() == ls@[i as int]@);
            if contains_chars(ls[i].as_slice(), m.as_slice()) {
                let t = trim_chars(ls[i].as_slice());
                let s = string_of(t.as_slice());
                let ghost before = out.deep_view();
                out.push(s);
                assert(out.deep_view() =~~= before.push(s@));
            }
            i = i + 1;
        }
        assert(lsv.take(lsv.len() as int) =~= lsv);
        out
    }

    /// Record a log line if it contains the marker. Returns true if recorded.
    pub fn record_log(&mut self, raw: String) -> (r: bool)
        ensures
            r == has_marker(raw@),
            r ==> final(self).logs@ == old(self).logs@.push(
                DebugLogEntry { raw, hypothesis_id: hypothesis_id_of(raw@) },
            ) && final(self).instrumented,
            !r ==> final(self).logs@ == old(self).logs@ && final(self).instrumented == old(
                self,
            ).instrumented,
            final(self).hypotheses@ == old(self).hypotheses@,
            final(self).phase == old(self).phase,
            old(self).wf() ==> final(self).wf(),
    {
        if !Self::is_rivo_debug_log(raw.as_str()) {
            return false;
        }
        let hypothesis_id = parse_hypothesis_id(raw.as_str());
        self.logs.push(DebugLogEntry { raw, hypothesis_id });
        self.instrumented = true;
        true
    }

    /// Record all marker lines of a multi-line text blob. Returns how many.
    pub fn record_logs_from_text(&mut self, text: &str) -> (n: usize)
        ensures
            n == extracted_lines(text@).len(),
            log_views(final(self).logs@) == log_views(old(self).logs@) + extracted_lines(
                text@,
            ).map_values(|l: Seq<char>| log_entry_for(l)),
            final(self).instrumented == (old(self).instrumented || n > 0),
            final(self).hypotheses@ == old(self).hypotheses@,
            final(self).phase == old(self).phase,
            old(self).wf() ==> final(self).wf(),
    {
        let lines = Self::extract_marker_lines(text);
        let ghost ex = extracted_lines(text@);
        let ghost start = log_views(self.logs@);
        let ghost was_wf = self.wf();
        let ghost was_instrumented = self.instrumented;
        proof {
            law_extracted_lines_carry_marker(text@);
        }
        let mut n: usize = 0;
        while n < lines.len()
            invariant
                lines.deep_view() == ex,
                n <= lines@.len(),
                log_views(self.logs@) =~= start + ex.take(n as int).map_values(
                    |l: Seq<char>| log_entry_for(l),
                ),
                self.instrumented == (was_instrumented || n > 0),
                self.hypotheses@ == old(self).hypotheses@,
                self.phase == old(self).phase,
                was_wf ==> self.wf(),
                forall|j: int| 0 <= j < ex.len() ==> has_marker(#[trigger] ex[j]),
            decreases lines@.len() - n,
        {
            let line = lines[n].clone();
            assert(line@ == ex[n as int]);
            let ghost prev = self.logs@;
            let ok = self.record_log(line);
            assert(ok);
            assert(log_views(self.logs@) =~= log_views(prev).push(log_entry_for(ex[n as int])));
            assert(ex.take(n + 1) =~= ex.take(n as int).push(ex[n as int]));
            n = n + 1;
        }
        assert(ex.take(n as int) =~= ex);
        n
    }

    /// Whether at least one `[rivo-debug]` log has been captured.
    pub fn has_logs(&self) -> (r: bool)
        ensures
            r == (self.logs@.len() > 0),
    {
        !self.logs.is_empty()
    }

    /// Whether hypotheses have been recorded.
    pub fn has_hypotheses(&self) -> (r: bool)
        ensures
            r == (self.hypotheses@.len() > 0),
    {
        !self.hypotheses.is_empty()
    }

    /// Advance the phase when its precondition holds: two hypotheses leave
    /// `Hypothesize`, instrumentation leaves `Instrument`, a captured log
    /// leaves `Reproduce`.
    pub fn advance_if_ready(&mut self)
        ensures
            final(self).phase == advanced_phase(
                old(self).phase,
                old(self).hypotheses@.len(),
                old(self).instrumented,
                old(self).logs@.len(),
            ),
            final(self).hypotheses@ == old(self).hypotheses@,
            final(self).logs@ == old(self).logs@,
            final(self).instrumented == old(self).instrumented,
    {
        match self.phase {
            DebugPhase::Hypothesize => {
                if self.hypotheses.len() >= 2 {
                    self.phase = DebugPhase::Instrument;
                }
            },
            DebugPhase::Instrument => {
                if self.instrumented {
                    self.phase = DebugPhase::Reproduce;
                }
            },
            DebugPhase::Reproduce => {
                if self.has_logs() {
                    self.phase = DebugPhase::Analyze;
                }
            },
            _ => {},
        }
    }

    /// Mark as solved: the user picked (B).
    pub fn mark_solved(&mut self)
        ensures
            final(self).phase == DebugPhase::Solved,
            final(self).hypotheses@ == old(self).hypotheses@,
            final(self).logs@ == old(self).logs@,
            final(self).instrumented == old(self).instrumented,
    {
        self.phase = DebugPhase::Solved;
    }

    /// Reminder injected at turn start while no hypotheses exist yet.
    pub fn first_turn_reminder() -> (s: &'static str)
        ensures
            s@ == "System reminder: you are in Debug mode. If you have not yet done so, \
         generate 2-4 ranked hypotheses, propose instrumentation with exactly \
         \"[rivo-debug]\" marks, ask the user to reproduce, then analyze the \
         [rivo-debug] logs. End every turn with (A) Review logs / (B) Solved. \
         Do not invent logs; fix only with runtime evidence."@,
    {
        "System reminder: you are in Debug mode. If you have not yet done so, \
         generate 2-4 ranked hypotheses, propose instrumentation with exactly \
         \"[rivo-debug]\" marks, ask the user to reproduce, then analyze the \
         [rivo-debug] logs. End every turn with (A) Review logs / (B) Solved. \
         Do not invent logs; fix only with runtime evidence."
    }

    /// The two options offered at the end of every turn.
    pub fn ab_options() -> (r: [&'static str; 2])
        ensures
            r[0]@ == "(A) Review logs — paste new [rivo-debug] output or re-run with the same steps"@,
            r[1]@ == "(B) Solved — remove all [rivo-debug] instrumentation and summarize the fix"@,
    {
        [
            "(A) Review logs — paste new [rivo-debug] output or re-run with the same steps",
            "(B) Solved — remove all [rivo-debug] instrumentation and summarize the fix",
        ]
    }

    /// Whether `text` contains the marker anywhere.
    pub fn contains_marker(text: &str) -> (r: bool)
        ensures
            r == has_marker(text@),
    {
        Self::is_rivo_debug_log(text)
    }
}

impl Default for DebugLoopState {
    fn default() -> (s: Self)
        ensures
            s.hypotheses@.len() == 0,
            s.logs@.len() == 0,
            s.phase == DebugPhase::Hypothesize,
            !s.instrumented,
    {
        DebugLoopState::new()
    }
}

/// Every line that extraction yields still contains the marker: trimming a
/// line never cuts through it.
pub proof fn law_extracted_lines_carry_marker(text: Seq<char>)
    ensures
        forall|j: int|
            0 <= j < extracted_lines(text).len() ==> has_marker(
                #[trigger] extracted_lines(text)[j],
            ),
{
    lemma_marker_lines_carry_marker(lines_of(text));
}

proof fn lemma_marker_lines_carry_marker(ls: Seq<Seq<char>>)
    ensures
        forall|j: int|
            0 <= j < marker_lines(ls).len() ==> has_marker(#[trigger] marker_lines(ls)[j]),
    decreases ls.len(),
{
    if ls.len() > 0 {
        let r = marker_lines(ls.drop_last());
        lemma_marker_lines_carry_marker(ls.drop_last());
        if has_marker(ls.last()) {
            lemma_trim_keeps_marker(ls.last());
            assert(marker_lines(ls) == r.push(trim(ls.last())));
            assert forall|j: int| 0 <= j < marker_lines(ls).len() implies has_marker(
                #[trigger] marker_lines(ls)[j],
            ) by {
                if j < r.len() {
                    assert(marker_lines(ls)[j] == r[j]);
                }
            }
        } else {
            assert(marker_lines(ls) == r);
        }
    }
}

proof fn lemma_trim_keeps_marker(l: Seq<char>)
    requires
        has_marker(l),
    ensures
        has_marker(trim(l)),
{
    reveal_strlit("[rivo-debug]");
    assert(marker().len() == 12);
    assert(marker()[0] == '[');
    assert(marker().last() == ']');
    lemma_trim_keeps_occurrence(l, marker());
}

/// Only the user's confirmation solves the loop: advancing never reaches
/// `Solved` from another phase.
pub proof fn law_only_confirmation_solves(
    phase: DebugPhase,
    n_hypotheses: nat,
    instrumented: bool,
    n_logs: nat,
)
    ensures
        advanced_phase(phase, n_hypotheses, instrumented, n_logs) == DebugPhase::Solved
            ==> phase == DebugPhase::Solved,
{
}

} // verus!
