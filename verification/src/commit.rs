//! The commit model: the closed commit-type vocabulary, footer pairs, and
//! the aggregate record of a decomposed Conventional Commit message.

use vstd::prelude::*;

verus! {

/// Footer token that marks a breaking change.
pub const BREAKING_CHANGES: &'static str = "BREAKING CHANGE";

/// Closed vocabulary of commit types. Malformed input is represented
/// explicitly — classification is total and never fails.
#[derive(Debug, PartialEq)]
pub enum CommitType {
    Build,
    Chore,
    Ci,
    Docs,
    Feat,
    Fix,
    Perf,
    Refactor,
    Revert,
    Style,
    Test,
    /// A non-empty token outside the vocabulary, kept for diagnostics.
    InvalidType(String),
    /// No token was present at all.
    MissingType,
}

/// Mathematical image of [`CommitType`]: the same variants over `Seq<char>`.
pub enum CommitTypeView {
    Build,
    Chore,
    Ci,
    Docs,
    Feat,
    Fix,
    Perf,
    Refactor,
    Revert,
    Style,
    Test,
    InvalidType(Seq<char>),
    MissingType,
}

impl View for CommitType {
    type V = CommitTypeView;

    open spec fn view(&self) -> CommitTypeView {
        match self {
            CommitType::Build => CommitTypeView::Build,
            CommitType::Chore => CommitTypeView::Chore,
            CommitType::Ci => CommitTypeView::Ci,
            CommitType::Docs => CommitTypeView::Docs,
            CommitType::Feat => CommitTypeView::Feat,
            CommitType::Fix => CommitTypeView::Fix,
            CommitType::Perf => CommitTypeView::Perf,
            CommitType::Refactor => CommitTypeView::Refactor,
            CommitType::Revert => CommitTypeView::Revert,
            CommitType::Style => CommitTypeView::Style,
            CommitType::Test => CommitTypeView::Test,
            CommitType::InvalidType(t) => CommitTypeView::InvalidType(t@),
            CommitType::MissingType => CommitTypeView::MissingType,
        }
    }
}

/// `s` with every `'!'` removed; the bang is a breaking-change marker, not
/// part of the type name.
pub open spec fn without_bangs(s: Seq<char>) -> Seq<char>
    decreases s.len(),
{
    if s.len() == 0 {
        Seq::empty()
    } else {
        without_bangs(s.drop_last()) + (if s.last() == '!' {
            Seq::<char>::empty()
        } else {
            seq![s.last()]
        })
    }
}

/// Removing bangs distributes over concatenation.
pub proof fn lemma_without_bangs_concat(x: Seq<char>, y: Seq<char>)
    ensures
        without_bangs(x + y) == without_bangs(x) + without_bangs(y),
    decreases y.len(),
{
    if y.len() == 0 {
        assert(x + y =~= x);
        assert(without_bangs(x) + without_bangs(y) =~= without_bangs(x));
    } else {
        lemma_without_bangs_concat(x, y.drop_last());
        assert((x + y).drop_last() =~= x + y.drop_last());
        assert((x + y).last() == y.last());
        assert(without_bangs(x) + without_bangs(y) =~= without_bangs(x) + without_bangs(
            y.drop_last(),
        ) + (if y.last() == '!' {
            Seq::<char>::empty()
        } else {
            seq![y.last()]
        }));
    }
}

/// A string without bangs is left unchanged.
pub proof fn lemma_without_bangs_clean(x: Seq<char>)
    requires
        forall|i: int| 0 <= i < x.len() ==> x[i] != '!',
    ensures
        without_bangs(x) == x,
    decreases x.len(),
{
    if x.len() == 0 {
        assert(without_bangs(x) =~= x);
    } else {
        lemma_without_bangs_clean(x.drop_last());
        assert(without_bangs(x) =~= x.drop_last() + seq![x.last()]);
        assert(x.drop_last() + seq![x.last()] =~= x);
    }
}

/// One step of a left-to-right bang-removing scan: a clean stretch of `ki`
/// characters followed by a bang contributes exactly that stretch.
proof fn lemma_remove_bangs_step(tv: Seq<char>, pi: int, ki: int)
    requires
        0 <= pi,
        0 <= ki,
        pi + ki < tv.len(),
        forall|j: int| pi <= j < pi + ki ==> tv[j] != '!',
        tv[pi + ki] == '!',
    ensures
        without_bangs(tv.subrange(0, pi + ki + 1)) == without_bangs(tv.subrange(0, pi))
            + tv.subrange(pi, pi + ki),
{
    let chunk = tv.subrange(pi, pi + ki);
    lemma_without_bangs_clean(chunk);
    assert(tv.subrange(0, pi + ki + 1) =~= tv.subrange(0, pi) + chunk + seq![tv[pi + ki]]);
    lemma_without_bangs_concat(tv.subrange(0, pi) + chunk, seq!['!']);
    lemma_without_bangs_concat(tv.subrange(0, pi), chunk);
    assert(without_bangs(seq!['!']) =~= Seq::<char>::empty()) by {
        assert(seq!['!'].drop_last() =~= Seq::<char>::empty());
        assert(without_bangs(Seq::<char>::empty()) =~= Seq::<char>::empty());
    }
    assert(without_bangs(tv.subrange(0, pi + ki + 1)) =~= without_bangs(tv.subrange(0, pi))
        + chunk);
}

/// Final step of the scan: a clean tail contributes itself.
proof fn lemma_remove_bangs_tail(tv: Seq<char>, pi: int)
    requires
        0 <= pi <= tv.len(),
        forall|j: int| pi <= j < tv.len() ==> tv[j] != '!',
    ensures
        without_bangs(tv) == without_bangs(tv.subrange(0, pi)) + tv.subrange(pi, tv.len() as int),
{
    let tail = tv.subrange(pi, tv.len() as int);
    lemma_without_bangs_clean(tail);
    lemma_without_bangs_concat(tv.subrange(0, pi), tail);
    assert(tv.subrange(0, pi) + tail =~= tv);
}

/// Total classification of a raw type token: bangs are stripped first, then
/// the result is matched case-sensitively against the closed vocabulary
/// (`"tests"` is an accepted alias for `Test`); an empty remainder means the
/// type is missing, any other unmatched remainder is invalid.
pub open spec fn classify(token: Seq<char>) -> CommitTypeView {
    let t = without_bangs(token);
    if t == "build"@ {
        CommitTypeView::Build
    } else if t == "chore"@ {
        CommitTypeView::Chore
    } else if t == "ci"@ {
        CommitTypeView::Ci
    } else if t == "docs"@ {
        CommitTypeView::Docs
    } else if t == "feat"@ {
        CommitTypeView::Feat
    } else if t == "fix"@ {
        CommitTypeView::Fix
    } else if t == "perf"@ {
        CommitTypeView::Perf
    } else if t == "refactor"@ {
        CommitTypeView::Refactor
    } else if t == "revert"@ {
        CommitTypeView::Revert
    } else if t == "style"@ {
        CommitTypeView::Style
    } else if t == "test"@ {
        CommitTypeView::Test
    } else if t == "tests"@ {
        CommitTypeView::Test
    } else if t.len() == 0 {
        CommitTypeView::MissingType
    } else {
        CommitTypeView::InvalidType(t)
    }
}

impl CommitType {
    /// Classify a raw type token against the closed vocabulary.
    pub fn classify(token: &str) -> (t: CommitType)
        ensures
            t@ == classify(token@),
    {
        let stripped = remove_bangs(token);
        let s = stripped.as_str();
        if crate::text::str_eq(s, "build") {
            CommitType::Build
        } else if crate::text::str_eq(s, "chore") {
            CommitType::Chore
        } else if crate::text::str_eq(s, "ci") {
            CommitType::Ci
        } else if crate::text::str_eq(s, "docs") {
            CommitType::Docs
        } else if crate::text::str_eq(s, "feat") {
            CommitType::Feat
        } else if crate::text::str_eq(s, "fix") {
            CommitType::Fix
        } else if crate::text::str_eq(s, "perf") {
            CommitType::Perf
        } else if crate::text::str_eq(s, "refactor") {
            CommitType::Refactor
        } else if crate::text::str_eq(s, "revert") {
            CommitType::Revert
        } else if crate::text::str_eq(s, "style") {
            CommitType::Style
        } else if crate::text::str_eq(s, "test") {
            CommitType::Test
        } else if crate::text::str_eq(s, "tests") {
            CommitType::Test
        } else if s.is_empty() {
            CommitType::MissingType
        } else {
            CommitType::InvalidType(stripped)
        }
    }

    /// Fixed display label: the lowercase type name, or a fixed phrase for
    /// the two malformed variants (never the raw token, so diagnostic output
    /// stays deterministic).
    pub fn label(&self) -> (r: String)
        ensures
            r@ == type_label(self@),
    {
        match self {
            CommitType::Build => String::from_str("build"),
            CommitType::Chore => String::from_str("chore"),
            CommitType::Ci => String::from_str("ci"),
            CommitType::Docs => String::from_str("docs"),
            CommitType::Feat => String::from_str("feat"),
            CommitType::Fix => String::from_str("fix"),
            CommitType::Perf => String::from_str("perf"),
            CommitType::Refactor => String::from_str("refactor"),
            CommitType::Revert => String::from_str("revert"),
            CommitType::Style => String::from_str("style"),
            CommitType::Test => String::from_str("test"),
            CommitType::InvalidType(_) => String::from_str("Invalid Commit Type"),
            CommitType::MissingType => String::from_str("Missing Commit Type"),
        }
    }
}

/// The fixed display label of each commit type.
pub open spec fn type_label(t: CommitTypeView) -> Seq<char> {
    match t {
        CommitTypeView::Build => "build"@,
        CommitTypeView::Chore => "chore"@,
        CommitTypeView::Ci => "ci"@,
        CommitTypeView::Docs => "docs"@,
        CommitTypeView::Feat => "feat"@,
        CommitTypeView::Fix => "fix"@,
        CommitTypeView::Perf => "perf"@,
        CommitTypeView::Refactor => "refactor"@,
        CommitTypeView::Revert => "revert"@,
        CommitTypeView::Style => "style"@,
        CommitTypeView::Test => "test"@,
        CommitTypeView::InvalidType(_) => "Invalid Commit Type"@,
        CommitTypeView::MissingType => "Missing Commit Type"@,
    }
}

/// `token` with every `'!'` removed.
fn remove_bangs(token: &str) -> (r: String)
    ensures
        r@ == without_bangs(token@),
{
    let n = token.unicode_len();
    let mut stripped = String::new();
    let mut p: usize = 0;
    loop
        invariant_except_break
            stripped@ == without_bangs(token@.subrange(0, p as int)),
        invariant
            n == token@.len(),
            p <= n,
        ensures
            stripped@ == without_bangs(token@),
        decreases n - p,
    {
        let rest = token.substring_char(p, n);
        match crate::text::find_char(rest, '!') {
            Some(k) => {
                let chunk = rest.substring_char(0, k);
                stripped.append(chunk);
                proof {
                    let tv = token@;
                    let pi = p as int;
                    let ki = k as int;
                    assert(chunk@ =~= tv.subrange(pi, pi + ki));
                    assert forall|j: int| pi <= j < pi + ki implies tv[j] != '!' by {
                        assert(rest@[j - pi] != '!');
                        assert(tv[j] == rest@[j - pi]);
                    }
                    assert(tv[pi + ki] == rest@[ki]);
                    lemma_remove_bangs_step(tv, pi, ki);
                }
                p = p + k + 1;
            },
            None => {
                stripped.append(rest);
                proof {
                    let tv = token@;
                    let pi = p as int;
                    assert(rest@ =~= tv.subrange(pi, n as int));
                    assert forall|j: int| pi <= j < tv.len() implies tv[j] != '!' by {
                        assert(rest@[j - pi] != '!');
                        assert(tv[j] == rest@[j - pi]);
                    }
                    lemma_remove_bangs_tail(tv, pi);
                }
                break;
            },
        }
    }
    stripped
}

/// An ordered footer pair: an identifier-like token and its free-text value.
#[derive(Debug, PartialEq)]
pub struct CommitFooter {
    pub token: String,
    pub value: String,
}

/// Mathematical image of [`CommitFooter`].
pub struct FooterView {
    pub token: Seq<char>,
    pub value: Seq<char>,
}

impl View for CommitFooter {
    type V = FooterView;

    open spec fn view(&self) -> FooterView {
        FooterView { token: self.token@, value: self.value@ }
    }
}

/// Aggregate record of a decomposed commit message. Always constructible,
/// from well-formed and malformed input alike; validity is a separate,
/// later-checked property.
#[derive(Debug, PartialEq)]
pub struct ConventionalCommit {
    pub commit_type: CommitType,
    pub scope: Option<String>,
    pub is_breaking_change: bool,
    pub summary: String,
    pub body: Option<String>,
    pub footer: Option<Vec<CommitFooter>>,
}

/// Mathematical image of [`ConventionalCommit`].
pub struct CommitView {
    pub commit_type: CommitTypeView,
    pub scope: Option<Seq<char>>,
    pub is_breaking_change: bool,
    pub summary: Seq<char>,
    pub body: Option<Seq<char>>,
    pub footer: Option<Seq<FooterView>>,
}

/// View of an optional string.
pub open spec fn opt_string_view(o: Option<String>) -> Option<Seq<char>> {
    match o {
        Some(s) => Some(s@),
        None => None,
    }
}

/// View of a footer sequence.
pub open spec fn footers_view(fs: Seq<CommitFooter>) -> Seq<FooterView> {
    fs.map_values(|f: CommitFooter| f@)
}

/// View of an optional footer sequence.
pub open spec fn opt_footers_view(o: Option<Vec<CommitFooter>>) -> Option<Seq<FooterView>> {
    match o {
        Some(fs) => Some(footers_view(fs@)),
        None => None,
    }
}

impl View for ConventionalCommit {
    type V = CommitView;

    open spec fn view(&self) -> CommitView {
        CommitView {
            commit_type: self.commit_type@,
            scope: opt_string_view(self.scope),
            is_breaking_change: self.is_breaking_change,
            summary: self.summary@,
            body: opt_string_view(self.body),
            footer: opt_footers_view(self.footer),
        }
    }
}

/// `s` wrapped in double quotes.
pub open spec fn quoted(s: Seq<char>) -> Seq<char> {
    seq!['"'] + s + seq!['"']
}

/// Wrap a string in double quotes for display.
pub fn format_string(string: String) -> (r: String)
    ensures
        r@ == quoted(string@),
{
    let mut r = String::from_str("\"");
    r.append(string.as_str());
    r.append("\"");
    proof {
        reveal_strlit("\"");
        assert(r@ =~= quoted(string@));
    }
    r
}

} // verus!
