//! The commit parser: pure functions taking a raw message string to a
//! [`ConventionalCommit`] record or to a batch of validation diagnostics.
//!
//! The algorithm, in order: split on the first `": "` into header and
//! summary-and-body (no `": "` at all is an unrecoverable shape error);
//! decompose the header into type token, optional scope and breaking-change
//! bang; split summary from the optional trailing segment on the first blank
//! line; classify each trailing line as footer or body text; aggregate
//! breaking-change signals; validate the assembled record, accumulating
//! every defect rather than stopping at the first.

use vstd::prelude::*;
use crate::commit::{
    classify, footers_view, opt_footers_view, opt_string_view, CommitFooter, CommitType,
    CommitView, CommitTypeView, ConventionalCommit, FooterView, BREAKING_CHANGES,
};
use crate::text::{
    char_at, find_char, find_pair, first_char, first_pair, has_char, has_pair, pair_at, str_eq,
};

verus! {

/// A single defect found while validating an assembled record.
#[derive(Debug, PartialEq)]
pub enum CommitDefect {
    /// The type token is outside the closed vocabulary; carries the token.
    InvalidType(String),
    /// No type token was present at all.
    MissingType,
    /// The summary is the empty string.
    EmptySummary,
}

/// Mathematical image of [`CommitDefect`].
pub enum DefectView {
    InvalidType(Seq<char>),
    MissingType,
    EmptySummary,
}

impl View for CommitDefect {
    type V = DefectView;

    open spec fn view(&self) -> DefectView {
        match self {
            CommitDefect::InvalidType(t) => DefectView::InvalidType(t@),
            CommitDefect::MissingType => DefectView::MissingType,
            CommitDefect::EmptySummary => DefectView::EmptySummary,
        }
    }
}

/// Why no usable record was returned.
#[derive(Debug, PartialEq)]
pub enum ParseError {
    /// The message lacks the mandatory `": "` separator of the
    /// `<type>: <description>` shape; no record is produced at all.
    MalformedHeader,
    /// A record was assembled but failed validation; every defect is
    /// reported, in order of detection.
    InvalidCommit(Vec<CommitDefect>),
}

/// Mathematical image of one parse: the record, the defect batch, or the
/// unrecoverable header shape error.
pub enum ParseOutcome {
    MalformedHeader,
    Rejected(Seq<DefectView>),
    Parsed(CommitView),
}

/// View of a defect sequence.
pub open spec fn defects_view(ds: Seq<CommitDefect>) -> Seq<DefectView> {
    ds.map_values(|d: CommitDefect| d@)
}

/// The outcome that an executable parse result denotes.
pub open spec fn outcome_of(r: Result<ConventionalCommit, ParseError>) -> ParseOutcome {
    match r {
        Ok(c) => ParseOutcome::Parsed(c@),
        Err(ParseError::MalformedHeader) => ParseOutcome::MalformedHeader,
        Err(ParseError::InvalidCommit(ds)) => ParseOutcome::Rejected(defects_view(ds@)),
    }
}

// ------------------------------------------------------------------
// Header model
// ------------------------------------------------------------------

/// The raw type token: everything before the first `'('`, or the whole
/// header when there is none.
pub open spec fn type_token_of(header: Seq<char>) -> Seq<char> {
    if has_char(header, '(') {
        header.subrange(0, first_char(header, '('))
    } else {
        header
    }
}

/// The raw scope segment: the text between the first `'('` and the second
/// `'('` (or the end of the header), when a `'('` is present at all.
pub open spec fn scope_segment_of(header: Seq<char>) -> Option<Seq<char>> {
    if has_char(header, '(') {
        let tail = header.subrange(first_char(header, '(') + 1, header.len() as int);
        if has_char(tail, '(') {
            Some(tail.subrange(0, first_char(tail, '(')))
        } else {
            Some(tail)
        }
    } else {
        None
    }
}

/// `s` with every trailing `')'` removed.
pub open spec fn trim_close_parens(s: Seq<char>) -> Seq<char>
    decreases s.len(),
{
    if s.len() > 0 && s.last() == ')' {
        trim_close_parens(s.drop_last())
    } else {
        s
    }
}

/// `s` with every trailing `")!"` removed.
pub open spec fn trim_close_bangs(s: Seq<char>) -> Seq<char>
    decreases s.len(),
{
    if s.len() >= 2 && s[s.len() - 2] == ')' && s[s.len() - 1] == '!' {
        trim_close_bangs(s.subrange(0, s.len() - 2))
    } else {
        s
    }
}

/// The scope text recovered from a raw scope segment: trailing `')'`
/// stripped first, trailing `")!"` after that.
pub open spec fn scope_text(seg: Seq<char>) -> Seq<char> {
    trim_close_bangs(trim_close_parens(seg))
}

/// The scope a raw segment denotes: an empty result after stripping means
/// "no scope", never an empty-string scope.
pub open spec fn scope_of_segment(seg: Seq<char>) -> Option<Seq<char>> {
    if scope_text(seg).len() == 0 {
        None
    } else {
        Some(scope_text(seg))
    }
}

/// The scope of a whole header.
pub open spec fn scope_of(header: Seq<char>) -> Option<Seq<char>> {
    match scope_segment_of(header) {
        Some(seg) => scope_of_segment(seg),
        None => None,
    }
}

// ------------------------------------------------------------------
// Body / footer model
// ------------------------------------------------------------------

/// The lines of `s`, split on `'\n'`; the empty string has one empty line.
pub open spec fn split_lines(s: Seq<char>) -> Seq<Seq<char>>
    decreases s.len(),
{
    if s.len() == 0 {
        seq![Seq::<char>::empty()]
    } else {
        let prior = split_lines(s.drop_last());
        if s.last() == '\n' {
            prior.push(Seq::<char>::empty())
        } else {
            prior.update(prior.len() - 1, prior.last().push(s.last()))
        }
    }
}

/// A line is footer-shaped exactly when it holds the substring `": "`.
pub open spec fn is_footer_line(l: Seq<char>) -> bool {
    has_pair(l, ':', ' ')
}

/// The footer pair a footer-shaped line denotes: token before the first
/// `": "`, value everything after it.
pub open spec fn footer_of_line(l: Seq<char>) -> FooterView {
    FooterView {
        token: l.subrange(0, first_pair(l, ':', ' ')),
        value: l.subrange(first_pair(l, ':', ' ') + 2, l.len() as int),
    }
}

/// What one line adds to the accumulated body text.
pub open spec fn line_body(l: Seq<char>) -> Seq<char> {
    if is_footer_line(l) {
        Seq::empty()
    } else {
        l + seq!['\n']
    }
}

/// What one line adds to the collected footers.
pub open spec fn line_footers(l: Seq<char>) -> Seq<FooterView> {
    if is_footer_line(l) {
        seq![footer_of_line(l)]
    } else {
        Seq::empty()
    }
}

/// The body text accumulated over a line sequence, in order, each body line
/// reattached with a trailing newline. Classification is per line: a body
/// line after a footer line still counts.
pub open spec fn body_of_lines(ls: Seq<Seq<char>>) -> Seq<char>
    decreases ls.len(),
{
    if ls.len() == 0 {
        Seq::empty()
    } else {
        body_of_lines(ls.drop_last()) + line_body(ls.last())
    }
}

/// The footers collected over a line sequence, in order of appearance.
pub open spec fn footers_of_lines(ls: Seq<Seq<char>>) -> Seq<FooterView>
    decreases ls.len(),
{
    if ls.len() == 0 {
        Seq::empty()
    } else {
        footers_of_lines(ls.drop_last()) + line_footers(ls.last())
    }
}

/// The accumulated body with one trailing blank line removed.
pub open spec fn trim_trailing_blank(b: Seq<char>) -> Seq<char> {
    if b.len() >= 2 && b[b.len() - 2] == '\n' && b[b.len() - 1] == '\n' {
        b.subrange(0, b.len() - 2)
    } else {
        b
    }
}

/// Every character of `b` is a newline (true of the empty string).
pub open spec fn all_newlines(b: Seq<char>) -> bool {
    forall|i: int| 0 <= i < b.len() ==> b[i] == '\n'
}

/// The body an accumulated body text denotes: trailing blank line trimmed,
/// and an all-blank or empty result becomes "no body".
pub open spec fn body_result(b: Seq<char>) -> Option<Seq<char>> {
    if all_newlines(trim_trailing_blank(b)) {
        None
    } else {
        Some(trim_trailing_blank(b))
    }
}

/// The footer list a collected sequence denotes: an empty collection
/// becomes "no footers".
pub open spec fn footers_result(fs: Seq<FooterView>) -> Option<Seq<FooterView>> {
    if fs.len() == 0 {
        None
    } else {
        Some(fs)
    }
}

/// The body recovered from the optional post-blank-line segment.
pub open spec fn body_model(seg: Option<Seq<char>>) -> Option<Seq<char>> {
    match seg {
        Some(s) => body_result(body_of_lines(split_lines(s))),
        None => None,
    }
}

/// The footers recovered from the optional post-blank-line segment.
pub open spec fn footer_model(seg: Option<Seq<char>>) -> Option<Seq<FooterView>> {
    match seg {
        Some(s) => footers_result(footers_of_lines(split_lines(s))),
        None => None,
    }
}

// ------------------------------------------------------------------
// Summary split, breaking change, validation
// ------------------------------------------------------------------

/// The summary: the text before the first blank line, or the whole
/// remainder when no blank line follows.
pub open spec fn summary_of(rest: Seq<char>) -> Seq<char> {
    if has_pair(rest, '\n', '\n') {
        rest.subrange(0, first_pair(rest, '\n', '\n'))
    } else {
        rest
    }
}

/// The post-blank-line segment, if a blank line separates it from the
/// summary; footer detection only ever happens inside this segment.
pub open spec fn tail_segment_of(rest: Seq<char>) -> Option<Seq<char>> {
    if has_pair(rest, '\n', '\n') {
        Some(rest.subrange(first_pair(rest, '\n', '\n') + 2, rest.len() as int))
    } else {
        None
    }
}

/// Some collected footer has the token `"BREAKING CHANGE"`, exactly.
pub open spec fn has_breaking_footer(fs: Seq<FooterView>) -> bool {
    exists|i: int| 0 <= i < fs.len() && fs[i].token == "BREAKING CHANGE"@
}

/// Breaking-change signal from the footers, if any were collected.
pub open spec fn opt_has_breaking_footer(fs: Option<Seq<FooterView>>) -> bool {
    match fs {
        Some(fs) => has_breaking_footer(fs),
        None => false,
    }
}

/// Every defect of an assembled record, in order of detection: an invalid
/// or missing type first, an empty summary after it. Both are reported
/// together when both apply.
pub open spec fn defects_of(c: CommitView) -> Seq<DefectView> {
    (match c.commit_type {
        CommitTypeView::InvalidType(t) => seq![DefectView::InvalidType(t)],
        CommitTypeView::MissingType => seq![DefectView::MissingType],
        _ => Seq::<DefectView>::empty(),
    }) + (if c.summary.len() == 0 {
        seq![DefectView::EmptySummary]
    } else {
        Seq::<DefectView>::empty()
    })
}

/// A record is valid exactly when validation finds no defect.
pub open spec fn is_valid_commit(c: CommitView) -> bool {
    defects_of(c).len() == 0
}

// ------------------------------------------------------------------
// Whole-message model
// ------------------------------------------------------------------

/// The record that a message with a well-shaped header decomposes to.
pub open spec fn commit_model(msg: Seq<char>) -> CommitView
    recommends
        has_pair(msg, ':', ' '),
{
    let header = msg.subrange(0, first_pair(msg, ':', ' '));
    let rest = msg.subrange(first_pair(msg, ':', ' ') + 2, msg.len() as int);
    let footer = footer_model(tail_segment_of(rest));
    CommitView {
        commit_type: classify(type_token_of(header)),
        scope: scope_of(header),
        is_breaking_change: has_char(header, '!') || opt_has_breaking_footer(footer),
        summary: summary_of(rest),
        body: body_model(tail_segment_of(rest)),
        footer: footer,
    }
}

/// The outcome of parsing a whole message: the structural split must
/// succeed, and the assembled record must validate.
pub open spec fn parse_model(msg: Seq<char>) -> ParseOutcome {
    if !has_pair(msg, ':', ' ') {
        ParseOutcome::MalformedHeader
    } else if is_valid_commit(commit_model(msg)) {
        ParseOutcome::Parsed(commit_model(msg))
    } else {
        ParseOutcome::Rejected(defects_of(commit_model(msg)))
    }
}

// ------------------------------------------------------------------
// Executable parser
// ------------------------------------------------------------------

/// Whether any collected footer carries the breaking-change token.
pub fn exitst_breaking_change_footer(footers: &Option<Vec<CommitFooter>>) -> (r: bool)
    ensures
        r == opt_has_breaking_footer(opt_footers_view(*footers)),
{
    match footers {
        None => false,
        Some(fs) => {
            let n = fs.len();
            let mut i: usize = 0;
            while i < n
                invariant
                    n == fs@.len(),
                    i <= n,
                    opt_footers_view(*footers) == Some(footers_view(fs@)),
                    forall|j: int| 0 <= j < i ==> fs@[j].token@ != "BREAKING CHANGE"@,
                decreases n - i,
            {
                if str_eq(fs[i].token.as_str(), BREAKING_CHANGES) {
                    proof {
                        let fv = footers_view(fs@);
                        assert(fv[i as int] == fs@[i as int]@);
                        assert(fv[i as int].token == "BREAKING CHANGE"@);
                        assert(has_breaking_footer(fv));
                        assert(opt_footers_view(*footers) == Some(fv));
                    }
                    return true;
                }
                i = i + 1;
            }
            proof {
                let fv = footers_view(fs@);
                assert forall|j: int| 0 <= j < fv.len() implies fv[j].token
                    != "BREAKING CHANGE"@ by {
                    assert(fv[j] == fs@[j]@);
                }
                assert(opt_footers_view(*footers) == Some(fv));
            }
            false
        },
    }
}

/// Validate an assembled record, returning every defect found, in order of
/// detection; an empty result means the record is valid.
pub fn validate_commit(commit: &ConventionalCommit) -> (defects: Vec<CommitDefect>)
    ensures
        defects_view(defects@) == defects_of(commit@),
        defects@.len() == 0 <==> is_valid_commit(commit@),
{
    let mut defects: Vec<CommitDefect> = Vec::new();
    match &commit.commit_type {
        CommitType::InvalidType(t) => {
            defects.push(CommitDefect::InvalidType(t.clone()));
        },
        CommitType::MissingType => {
            defects.push(CommitDefect::MissingType);
        },
        _ => {},
    }
    if commit.summary.as_str().is_empty() {
        defects.push(CommitDefect::EmptySummary);
    }
    proof {
        assert(defects_view(defects@) =~= defects_of(commit@));
    }
    defects
}

/// The scope denoted by a raw scope segment: trailing `')'` stripped, then
/// trailing `")!"`, with an empty remainder meaning no scope.
fn scope_from_segment(seg: &str) -> (r: Option<String>)
    ensures
        opt_string_view(r) == scope_of_segment(seg@),
{
    let n = seg.unicode_len();
    let mut k = n;
    proof {
        assert(seg@.subrange(0, n as int) =~= seg@);
    }
    while k > 0 && seg.get_char(k - 1) == ')'
        invariant
            n == seg@.len(),
            k <= n,
            trim_close_parens(seg@) == trim_close_parens(seg@.subrange(0, k as int)),
        decreases k,
    {
        proof {
            let sub = seg@.subrange(0, k as int);
            assert(sub.last() == ')');
            assert(sub.drop_last() =~= seg@.subrange(0, k as int - 1));
        }
        k = k - 1;
    }
    proof {
        assert(seg@.subrange(0, n as int) =~= seg@);
        assert(trim_close_parens(seg@) == seg@.subrange(0, k as int)) by {
            let sub = seg@.subrange(0, k as int);
            if k > 0 {
                assert(sub.last() == seg@[k as int - 1]);
            }
        }
    }
    let ghost after_parens = seg@.subrange(0, k as int);
    while k >= 2 && seg.get_char(k - 2) == ')' && seg.get_char(k - 1) == '!'
        invariant
            n == seg@.len(),
            k <= n,
            trim_close_bangs(after_parens) == trim_close_bangs(seg@.subrange(0, k as int)),
        decreases k,
    {
        proof {
            let sub = seg@.subrange(0, k as int);
            assert(sub[sub.len() - 2] == ')' && sub[sub.len() - 1] == '!');
            assert(sub.subrange(0, sub.len() - 2) =~= seg@.subrange(0, k as int - 2));
        }
        k = k - 2;
    }
    proof {
        assert(trim_close_bangs(seg@.subrange(0, k as int)) == seg@.subrange(0, k as int)) by {
            let sub = seg@.subrange(0, k as int);
            if k >= 2 {
                assert(sub[sub.len() - 2] == seg@[k as int - 2]);
                assert(sub[sub.len() - 1] == seg@[k as int - 1]);
            }
        }
        assert(scope_text(seg@) == seg@.subrange(0, k as int));
    }
    if k == 0 {
        None
    } else {
        Some(seg.substring_char(0, k).to_owned())
    }
}

// ------------------------------------------------------------------
// Line-splitting lemmas
// ------------------------------------------------------------------

/// Every split has at least one line.
pub proof fn lemma_split_lines_len(s: Seq<char>)
    ensures
        split_lines(s).len() >= 1,
    decreases s.len(),
{
    if s.len() > 0 {
        lemma_split_lines_len(s.drop_last());
    }
}

/// A newline-free string is a single line.
pub proof fn lemma_split_lines_single(s: Seq<char>)
    requires
        forall|i: int| 0 <= i < s.len() ==> s[i] != '\n',
    ensures
        split_lines(s) == seq![s],
    decreases s.len(),
{
    if s.len() == 0 {
        assert(s =~= Seq::<char>::empty());
        assert(split_lines(s) =~= seq![s]);
    } else {
        lemma_split_lines_single(s.drop_last());
        assert(s.last() != '\n');
        assert(split_lines(s) =~= seq![s.drop_last().push(s.last())]);
        assert(s.drop_last().push(s.last()) =~= s);
        assert(split_lines(s) =~= seq![s]);
    }
}

/// Splitting distributes over a newline join.
pub proof fn lemma_split_lines_concat(x: Seq<char>, y: Seq<char>)
    ensures
        split_lines(x + seq!['\n'] + y) == split_lines(x) + split_lines(y),
    decreases y.len(),
{
    let z = x + seq!['\n'] + y;
    if y.len() == 0 {
        assert(z.drop_last() =~= x);
        assert(z.last() == '\n');
        assert(split_lines(z) == split_lines(x).push(Seq::<char>::empty()));
        assert(split_lines(y) =~= seq![Seq::<char>::empty()]);
        assert(split_lines(x) + split_lines(y) =~= split_lines(x).push(Seq::<char>::empty()));
    } else {
        lemma_split_lines_concat(x, y.drop_last());
        assert(z.drop_last() =~= x + seq!['\n'] + y.drop_last());
        assert(z.last() == y.last());
        let a = split_lines(x);
        let b = split_lines(y.drop_last());
        lemma_split_lines_len(y.drop_last());
        assert(split_lines(z.drop_last()) == a + b);
        if y.last() == '\n' {
            assert(split_lines(z) == (a + b).push(Seq::<char>::empty()));
            assert(split_lines(y) == b.push(Seq::<char>::empty()));
            assert((a + b).push(Seq::<char>::empty()) =~= a + b.push(Seq::<char>::empty()));
        } else {
            assert((a + b).last() == b.last());
            assert(split_lines(z) == (a + b).update(a.len() + b.len() - 1, b.last().push(
                y.last(),
            )));
            assert(split_lines(y) == b.update(b.len() - 1, b.last().push(y.last())));
            assert((a + b).update(a.len() + b.len() - 1, b.last().push(y.last())) =~= a + b.update(
                b.len() - 1,
                b.last().push(y.last()),
            ));
        }
    }
}

/// Appending one line extends body and footers by that line's contribution.
pub proof fn lemma_lines_push(ls: Seq<Seq<char>>, l: Seq<char>)
    ensures
        body_of_lines(ls.push(l)) == body_of_lines(ls) + line_body(l),
        footers_of_lines(ls.push(l)) == footers_of_lines(ls) + line_footers(l),
{
    assert(ls.push(l).drop_last() =~= ls);
    assert(ls.push(l).last() == l);
}

/// The text before the leftmost newline is the first line; the rest of the
/// lines are those of the text after it.
pub proof fn lemma_lines_head(restv: Seq<char>, k: int)
    requires
        0 <= k < restv.len(),
        restv[k] == '\n',
        forall|j: int| 0 <= j < k ==> restv[j] != '\n',
    ensures
        split_lines(restv) == seq![restv.subrange(0, k)] + split_lines(
            restv.subrange(k + 1, restv.len() as int),
        ),
{
    let linev = restv.subrange(0, k);
    let rest2 = restv.subrange(k + 1, restv.len() as int);
    assert forall|j: int| 0 <= j < linev.len() implies linev[j] != '\n' by {
        assert(linev[j] == restv[j]);
    }
    lemma_split_lines_single(linev);
    lemma_split_lines_concat(linev, rest2);
    assert(restv =~= linev + seq!['\n'] + rest2);
}

// ------------------------------------------------------------------
// Body / footer classification
// ------------------------------------------------------------------

/// Feed one line to the accumulating body text and footer collection.
#[verifier::rlimit(60)]
fn consume_line(line: &str, body: &mut String, footers: &mut Vec<CommitFooter>)
    ensures
        final(body)@ == old(body)@ + line_body(line@),
        footers_view(final(footers)@) == footers_view(old(footers)@) + line_footers(line@),
{
    let ln = line.unicode_len();
    match find_pair(line, ':', ' ') {
        Some(p) => {
            let token = line.substring_char(0, p).to_owned();
            let value = line.substring_char(p + 2, ln).to_owned();
            footers.push(CommitFooter { token, value });
            proof {
                let lv = line@;
                assert(is_footer_line(lv));
                assert(footers@.last()@ == footer_of_line(lv));
                assert(footers_view(footers@) =~= footers_view(old(footers)@) + line_footers(lv));
                assert(old(body)@ + line_body(lv) =~= old(body)@);
            }
        },
        None => {
            body.append(line);
            body.append("\n");
            proof {
                reveal_strlit("\n");
                assert("\n"@ =~= seq!['\n']);
                assert(!is_footer_line(line@));
                assert(body@ =~= old(body)@ + line_body(line@));
                assert(footers_view(footers@) + line_footers(line@) =~= footers_view(footers@));
            }
        },
    }
}

/// Whether every character of `s` is a newline.
fn check_all_newlines(s: &str) -> (r: bool)
    ensures
        r == all_newlines(s@),
{
    let n = s.unicode_len();
    let mut i: usize = 0;
    while i < n
        invariant
            n == s@.len(),
            i <= n,
            forall|j: int| 0 <= j < i ==> s@[j] == '\n',
        decreases n - i,
    {
        if s.get_char(i) != '\n' {
            return false;
        }
        i = i + 1;
    }
    true
}

/// The accumulated body with one trailing blank line removed.
fn trim_trailing_blank_line(b: String) -> (r: String)
    ensures
        r@ == trim_trailing_blank(b@),
{
    let n = b.as_str().unicode_len();
    if n >= 2 && b.as_str().get_char(n - 2) == '\n' && b.as_str().get_char(n - 1) == '\n' {
        b.as_str().substring_char(0, n - 2).to_owned()
    } else {
        b
    }
}

/// Classify the post-blank-line segment line by line: a line holding
/// `": "` becomes a footer pair, every other line is body text, in order,
/// re-evaluated per line (no one-way switch into footer mode). The
/// accumulated body then loses one trailing blank line, and empty or
/// all-blank results become `None`; so does an empty footer collection.
#[verifier::rlimit(100)]
pub fn parse_body_and_footers(body_and_footers: Option<&str>) -> (r: (
    Option<String>,
    Option<Vec<CommitFooter>>,
))
    ensures
        match body_and_footers {
            Some(seg) => {
                &&& opt_string_view(r.0) == body_model(Some(seg@))
                &&& opt_footers_view(r.1) == footer_model(Some(seg@))
            },
            None => r.0 is None && r.1 is None,
        },
{
    let seg = match body_and_footers {
        Some(s) => s,
        None => {
            return (None, None);
        },
    };
    let n = seg.unicode_len();
    let mut body = String::new();
    let mut footers: Vec<CommitFooter> = Vec::new();
    let ghost mut done: Seq<Seq<char>> = Seq::empty();
    let mut pos: usize = 0;
    proof {
        assert(seg@.subrange(0, n as int) =~= seg@);
        assert(done + split_lines(seg@) =~= split_lines(seg@));
        assert(body@ =~= body_of_lines(done));
        assert(footers_view(footers@) =~= footers_of_lines(done));
    }
    loop
        invariant_except_break
            split_lines(seg@) == done + split_lines(seg@.subrange(pos as int, n as int)),
        invariant
            n == seg@.len(),
            pos <= n,
            body@ == body_of_lines(done),
            footers_view(footers@) == footers_of_lines(done),
        ensures
            body@ == body_of_lines(split_lines(seg@)),
            footers_view(footers@) == footers_of_lines(split_lines(seg@)),
        decreases n - pos,
    {
        let rest = seg.substring_char(pos, n);
        match find_char(rest, '\n') {
            Some(k) => {
                let line = rest.substring_char(0, k);
                consume_line(line, &mut body, &mut footers);
                proof {
                    let restv = seg@.subrange(pos as int, n as int);
                    let linev = line@;
                    let rest2 = seg@.subrange(pos as int + k as int + 1, n as int);
                    lemma_lines_head(restv, k as int);
                    assert(restv.subrange(k as int + 1, restv.len() as int) =~= rest2);
                    lemma_lines_push(done, linev);
                    assert(done + (seq![linev] + split_lines(rest2)) =~= done.push(linev)
                        + split_lines(rest2));
                    done = done.push(linev);
                }
                pos = pos + k + 1;
            },
            None => {
                consume_line(rest, &mut body, &mut footers);
                proof {
                    let restv = seg@.subrange(pos as int, n as int);
                    lemma_split_lines_single(restv);
                    lemma_lines_push(done, restv);
                    assert(done + seq![restv] =~= done.push(restv));
                    done = done.push(restv);
                    assert(split_lines(seg@) == done);
                }
                break;
            },
        }
    }
    let trimmed = trim_trailing_blank_line(body);
    let ghost all_lines = split_lines(seg@);
    let body_opt: Option<String> = if check_all_newlines(trimmed.as_str()) {
        None
    } else {
        Some(trimmed)
    };
    let footer_opt: Option<Vec<CommitFooter>> = if footers.len() == 0 {
        None
    } else {
        Some(footers)
    };
    proof {
        assert(opt_string_view(body_opt) == body_result(body_of_lines(all_lines)));
        assert(opt_footers_view(footer_opt) == footers_result(footers_of_lines(all_lines)));
    }
    (body_opt, footer_opt)
}

// ------------------------------------------------------------------
// Top-level parse
// ------------------------------------------------------------------

/// Decompose a header into its classified type and its optional scope.
fn decompose_header(header: &str) -> (r: (CommitType, Option<String>))
    ensures
        r.0@ == classify(type_token_of(header@)),
        opt_string_view(r.1) == scope_of(header@),
{
    let ghost hv = header@;
    let hn = header.unicode_len();
    match find_char(header, '(') {
        Some(j) => {
            let token = header.substring_char(0, j);
            let tail = header.substring_char(j + 1, hn);
            let seg = match find_char(tail, '(') {
                Some(j2) => tail.substring_char(0, j2),
                None => tail,
            };
            proof {
                assert(token@ == type_token_of(hv));
                assert(scope_segment_of(hv) == Some(seg@));
            }
            let ct = CommitType::classify(token);
            let scope = scope_from_segment(seg);
            proof {
                assert(opt_string_view(scope) == scope_of(hv));
            }
            (ct, scope)
        },
        None => {
            proof {
                assert(type_token_of(hv) == hv);
                assert(scope_of(hv) is None);
            }
            (CommitType::classify(header), None)
        },
    }
}

/// Split the text after the header separator on the first blank line into
/// the verbatim summary and the classified body and footers; without a
/// blank line the whole text is the summary and nothing else exists, even
/// if later lines look like footers.
fn split_description(rest: &str) -> (r: (String, Option<String>, Option<Vec<CommitFooter>>))
    ensures
        r.0@ == summary_of(rest@),
        opt_string_view(r.1) == body_model(tail_segment_of(rest@)),
        opt_footers_view(r.2) == footer_model(tail_segment_of(rest@)),
{
    let ghost rv = rest@;
    let rn = rest.unicode_len();
    match find_pair(rest, '\n', '\n') {
        Some(b) => {
            let summary = rest.substring_char(0, b).to_owned();
            let seg2 = rest.substring_char(b + 2, rn);
            proof {
                assert(summary@ == summary_of(rv));
                assert(tail_segment_of(rv) == Some(seg2@));
            }
            let pr = parse_body_and_footers(Some(seg2));
            (summary, pr.0, pr.1)
        },
        None => {
            proof {
                assert(tail_segment_of(rv) is None);
            }
            (rest.to_owned(), None, None)
        },
    }
}

/// Decompose a raw commit message into a [`ConventionalCommit`] record, or
/// report why the input is invalid: a message without the mandatory `": "`
/// separator stops immediately with `MalformedHeader`; otherwise a record
/// is always assembled and every validation defect is reported together.
#[verifier::rlimit(50)]
pub fn parse_conventional_commit(commit_msg: &str) -> (r: Result<ConventionalCommit, ParseError>)
    ensures
        outcome_of(r) == parse_model(commit_msg@),
        r is Ok <==> has_pair(commit_msg@, ':', ' ') && is_valid_commit(
            commit_model(commit_msg@),
        ),
{
    let n = commit_msg.unicode_len();
    let hsplit = match find_pair(commit_msg, ':', ' ') {
        Some(i) => i,
        None => {
            return Err(ParseError::MalformedHeader);
        },
    };
    let header = commit_msg.substring_char(0, hsplit);
    let rest = commit_msg.substring_char(hsplit + 2, n);
    let ghost hv = header@;
    let ghost rv = rest@;
    proof {
        assert(hv == commit_msg@.subrange(0, first_pair(commit_msg@, ':', ' ')));
        assert(rv == commit_msg@.subrange(
            first_pair(commit_msg@, ':', ' ') + 2,
            commit_msg@.len() as int,
        ));
    }
    // Header decomposition: type token, optional scope segment.
    let hd = decompose_header(header);
    let ct = hd.0;
    let scope = hd.1;
    // Summary, body, footers.
    let sd = split_description(rest);
    let summary = sd.0;
    let body = sd.1;
    let footer = sd.2;
    // Breaking-change aggregation: header bang OR breaking footer.
    let bang = crate::text::contains_char(header, '!');
    let breaking_footer = exitst_breaking_change_footer(&footer);
    let is_breaking_change = bang || breaking_footer;
    let commit = ConventionalCommit {
        commit_type: ct,
        scope,
        is_breaking_change,
        summary,
        body,
        footer,
    };
    proof {
        assert(commit@ == commit_model(commit_msg@));
    }
    // Validation: accumulate every defect, then report them as a batch.
    let defects = validate_commit(&commit);
    if defects.len() == 0 {
        proof {
            assert(defects_of(commit@).len() == 0);
        }
        Ok(commit)
    } else {
        proof {
            assert(defects_of(commit@).len() != 0);
        }
        Err(ParseError::InvalidCommit(defects))
    }
}

// ------------------------------------------------------------------
// Laws
// ------------------------------------------------------------------

/// `t` is one of the supported type keywords, written exactly.
pub open spec fn is_type_keyword(t: Seq<char>) -> bool {
    ||| t == "build"@
    ||| t == "chore"@
    ||| t == "ci"@
    ||| t == "docs"@
    ||| t == "feat"@
    ||| t == "fix"@
    ||| t == "perf"@
    ||| t == "refactor"@
    ||| t == "revert"@
    ||| t == "style"@
    ||| t == "test"@
    ||| t == "tests"@
}

/// A supported keyword is non-empty, holds none of the header's structural
/// characters, and classifies to a proper type variant, never to the
/// invalid or missing cases.
pub proof fn lemma_keyword_facts(tok: Seq<char>)
    requires
        is_type_keyword(tok),
    ensures
        tok.len() > 0,
        forall|i: int| 0 <= i < tok.len() ==> (tok[i] != ':' && tok[i] != '(' && tok[i] != '!'),
        !(classify(tok) is InvalidType),
        !(classify(tok) is MissingType),
{
    reveal_strlit("build");
    reveal_strlit("chore");
    reveal_strlit("ci");
    reveal_strlit("docs");
    reveal_strlit("feat");
    reveal_strlit("fix");
    reveal_strlit("perf");
    reveal_strlit("refactor");
    reveal_strlit("revert");
    reveal_strlit("style");
    reveal_strlit("test");
    reveal_strlit("tests");
    assert(forall|i: int| 0 <= i < tok.len() ==> (tok[i] != ':' && tok[i] != '(' && tok[i]
        != '!'));
    crate::commit::lemma_without_bangs_clean(tok);
}

/// For every message `<type>: <summary>` whose type token is a supported
/// keyword and whose summary is non-empty and holds no blank line, parsing
/// succeeds with exactly that commit type and the verbatim summary, and
/// with no scope, no body, no footers and no breaking change.
pub proof fn lemma_plain_header_parse(tok: Seq<char>, summary: Seq<char>)
    requires
        is_type_keyword(tok),
        summary.len() > 0,
        !has_pair(summary, '\n', '\n'),
    ensures
        parse_model(tok + ": "@ + summary) == ParseOutcome::Parsed(
            CommitView {
                commit_type: classify(tok),
                scope: None,
                is_breaking_change: false,
                summary: summary,
                body: None,
                footer: None,
            },
        ),
{
    reveal_strlit(": ");
    lemma_keyword_facts(tok);
    let msg = tok + ": "@ + summary;
    let tl = tok.len() as int;
    assert(msg[tl] == ':' && msg[tl + 1] == ' ');
    assert(pair_at(msg, ':', ' ', tl));
    assert forall|j: int| 0 <= j < tl implies !pair_at(msg, ':', ' ', j) by {
        assert(msg[j] == tok[j]);
    }
    crate::text::lemma_first_pair(msg, ':', ' ', tl);
    let header = msg.subrange(0, tl);
    let rest = msg.subrange(tl + 2, msg.len() as int);
    assert(header =~= tok);
    assert(rest =~= summary);
    assert(!has_char(tok, '(')) by {
        if has_char(tok, '(') {
            let i = choose|i: int| char_at(tok, '(', i);
        }
    }
    assert(!has_char(tok, '!')) by {
        if has_char(tok, '!') {
            let i = choose|i: int| char_at(tok, '!', i);
        }
    }
    assert(type_token_of(header) == tok);
    assert(scope_of(header) is None);
    assert(summary_of(rest) == summary);
    assert(tail_segment_of(rest) is None);
    let c = commit_model(msg);
    assert(c.commit_type == classify(tok));
    assert(defects_of(c) =~= Seq::<DefectView>::empty());
}

/// Parsing is deterministic: the parse outcome is a function of the
/// message text alone, so parsing the same message twice always yields
/// structurally equal records or identical diagnostics.
pub proof fn lemma_parse_deterministic(msg1: Seq<char>, msg2: Seq<char>)
    requires
        msg1 == msg2,
    ensures
        parse_model(msg1) == parse_model(msg2),
{
}

/// Validation accumulates rather than failing fast: an invalid or missing
/// type and an empty summary are detected independently, each is reported
/// whenever it applies, and both are reported together when both apply.
pub proof fn lemma_validation_accumulates(c: CommitView)
    ensures
        is_valid_commit(c) <==> (!(c.commit_type is InvalidType) && !(c.commit_type
            is MissingType) && c.summary.len() > 0),
        c.summary.len() == 0 ==> defects_of(c).contains(DefectView::EmptySummary),
        (match c.commit_type {
            CommitTypeView::InvalidType(t) => defects_of(c).contains(DefectView::InvalidType(t)),
            _ => true,
        }),
        c.commit_type is MissingType ==> defects_of(c).contains(DefectView::MissingType),
        (c.commit_type is InvalidType || c.commit_type is MissingType) && c.summary.len() == 0
            ==> defects_of(c).len() == 2,
{
    let ds = defects_of(c);
    if c.summary.len() == 0 {
        assert(ds[ds.len() - 1] == DefectView::EmptySummary);
    }
    match c.commit_type {
        CommitTypeView::InvalidType(t) => {
            assert(ds[0] == DefectView::InvalidType(t));
        },
        CommitTypeView::MissingType => {
            assert(ds[0] == DefectView::MissingType);
        },
        _ => {},
    }
}

} // verus!
