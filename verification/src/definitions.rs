//! Definitions of symbols and the doc comments that go with them.
//!
//! A definition in a lispBM file is found by a syntax query whose matches
//! hold three kinds of captures: doc comments (index 0), the defined name
//! (index 1) and the whole definition (index 2). `from_def_match` turns the
//! captures of one match into a definition with its doc comment.

use vstd::prelude::*;

use crate::builtin::Builtin;
use crate::map::{assoc_get, assoc_insert, lemma_find_some, StrMap};
use crate::text::{clean_comment, clean_comment_text};

verus! {

broadcast use vstd::string::group_string_axioms;

/// Where a definition comes from.
#[derive(Debug)]
pub enum SourceInfo {
    /// A definition in a lispBM source file, with the position of its name.
    Source { file: String, line: u32, column: u32, len: u32 },
    /// A symbol of a builtin extension library.
    Builtin { name: Builtin },
    /// A symbol listed in a definition collection file or an entry file.
    Collection { path: String },
}

/// The mathematical value of a `SourceInfo`.
pub enum SourceView {
    Source { file: Seq<char>, line: u32, column: u32, len: u32 },
    Builtin { name: Builtin },
    Collection { path: Seq<char> },
}

impl DeepView for SourceInfo {
    type V = SourceView;

    open spec fn deep_view(&self) -> SourceView {
        match self {
            SourceInfo::Source { file, line, column, len } => SourceView::Source {
                file: file@,
                line: *line,
                column: *column,
                len: *len,
            },
            SourceInfo::Builtin { name } => SourceView::Builtin { name: *name },
            SourceInfo::Collection { path } => SourceView::Collection { path: path@ },
        }
    }
}

impl Clone for SourceInfo {
    fn clone(&self) -> (r: Self)
        ensures
            r.deep_view() == self.deep_view(),
    {
        match self {
            SourceInfo::Source { file, line, column, len } => SourceInfo::Source {
                file: file.clone(),
                line: *line,
                column: *column,
                len: *len,
            },
            SourceInfo::Builtin { name } => SourceInfo::Builtin { name: *name },
            SourceInfo::Collection { path } => SourceInfo::Collection { path: path.clone() },
        }
    }
}

/// A definition of a symbol: its doc comment and where it comes from.
#[derive(Debug)]
pub struct Definition {
    pub comment: Option<String>,
    pub source: SourceInfo,
}

/// The mathematical value of a `Definition`.
pub struct DefinitionView {
    pub comment: Option<Seq<char>>,
    pub source: SourceView,
}

impl DeepView for Definition {
    type V = DefinitionView;

    open spec fn deep_view(&self) -> DefinitionView {
        DefinitionView { comment: self.comment.deep_view(), source: self.source.deep_view() }
    }
}

/// Copies an optional string.
pub fn clone_opt_string(s: &Option<String>) -> (r: Option<String>)
    ensures
        r.deep_view() == s.deep_view(),
{
    match s {
        Some(t) => Some(t.clone()),
        None => None,
    }
}

impl Clone for Definition {
    fn clone(&self) -> (r: Self)
        ensures
            r.deep_view() == self.deep_view(),
    {
        Definition { comment: clone_opt_string(&self.comment), source: self.source.clone() }
    }
}

/// A node captured by a syntax query, with what the definition logic reads
/// of it: the capture's index in the query, the node's start and end
/// positions (row and column), and the node's text in the document (or the
/// message of the error that reading it as UTF-8 gave).
#[derive(Debug)]
pub struct Capture {
    pub index: u32,
    pub start_row: usize,
    pub start_column: usize,
    pub end_row: usize,
    pub end_column: usize,
    pub text: Result<String, String>,
}

/// The position of the first capture with query index `idx`.
#[verifier::opaque]
pub open spec fn first_capture(caps: Seq<Capture>, idx: u32) -> Option<int> {
    if exists|i: int| 0 <= i < caps.len() && caps[i].index == idx {
        Some(
            choose|i: int|
                0 <= i < caps.len() && caps[i].index == idx && forall|j: int|
                    0 <= j < i ==> caps[j].index != idx,
        )
    } else {
        None
    }
}

/// Whether `c` is a doc-comment capture on row `row`.
pub open spec fn is_comment_at(c: Capture, row: int) -> bool {
    c.index == 0 && c.start_row == row
}

/// The position of the last doc-comment capture on row `row`.
#[verifier::opaque]
pub open spec fn last_comment_at(caps: Seq<Capture>, row: int) -> Option<int> {
    if exists|i: int| 0 <= i < caps.len() && is_comment_at(caps[i], row) {
        Some(
            choose|i: int|
                0 <= i < caps.len() && is_comment_at(caps[i], row) && forall|j: int|
                    i < j < caps.len() ==> !is_comment_at(caps[j], row),
        )
    } else {
        None
    }
}

/// Whether two doc-comment captures lie on row `row`.
#[verifier::opaque]
pub open spec fn two_comments_at(caps: Seq<Capture>, row: int) -> bool {
    exists|i: int, j: int|
        0 <= i < j < caps.len() && is_comment_at(caps[i], row) && is_comment_at(caps[j], row)
}

/// The position of the first doc-comment capture whose row, as a `u32`, is `row`.
#[verifier::opaque]
pub open spec fn first_comment_on_line(caps: Seq<Capture>, row: u32) -> Option<int> {
    if exists|i: int| 0 <= i < caps.len() && caps[i].index == 0 && caps[i].start_row as u32 == row {
        Some(
            choose|i: int|
                0 <= i < caps.len() && caps[i].index == 0 && caps[i].start_row as u32 == row
                    && forall|j: int|
                    0 <= j < i ==> !(caps[j].index == 0 && caps[j].start_row as u32 == row),
        )
    } else {
        None
    }
}

/// `c` put in front of the comment gathered so far, unless `c` is empty.
pub open spec fn prepend_comment(c: Seq<char>, acc: Option<Seq<char>>) -> Option<Seq<char>> {
    if c.len() == 0 {
        acc
    } else {
        match acc {
            None => Some(c),
            Some(e) => Some(c + seq![' '] + e),
        }
    }
}

/// How gathering the doc comment above a definition ends.
pub enum AboveOutcome {
    /// The gathered comment, if any.
    Done(Option<Seq<char>>),
    /// Reading a comment's text failed with this message.
    Failed(Seq<char>),
    /// The row counter would go below zero.
    Underflow,
}

/// The doc comment above a definition, gathered upwards from the line above
/// `line`: the comment on each line directly above joins the front of the
/// comment, as long as the lines follow each other without a gap. Where a
/// line holds two comment captures, the last one is taken and the gathering
/// stops there.
pub open spec fn comments_above(caps: Seq<Capture>, line: nat, acc: Option<Seq<char>>) -> AboveOutcome
    decreases line,
{
    if line == 0 {
        AboveOutcome::Done(acc)
    } else {
        let r = (line - 1) as nat;
        match last_comment_at(caps, r as int) {
            None => AboveOutcome::Done(acc),
            Some(i) => match caps[i].text {
                Err(e) => AboveOutcome::Failed(e@),
                Ok(t) => {
                    let acc2 = prepend_comment(clean_comment(t@), acc);
                    if two_comments_at(caps, r as int) {
                        if r == 0 {
                            AboveOutcome::Underflow
                        } else {
                            AboveOutcome::Done(acc2)
                        }
                    } else {
                        comments_above(caps, r, acc2)
                    }
                },
            },
        }
    }
}

/// The texts `cs` joined top-down, with a space between each two.
pub open spec fn space_joined(cs: Seq<Seq<char>>) -> Seq<char>
    decreases cs.len(),
{
    if cs.len() <= 1 {
        if cs.len() == 1 {
            cs[0]
        } else {
            Seq::empty()
        }
    } else {
        space_joined(cs.drop_last()) + seq![' '] + cs.last()
    }
}

/// Some doc-comment capture on row `row` reads and cleans to `c`.
pub open spec fn row_holds_comment(caps: Seq<Capture>, row: int, c: Seq<char>) -> bool {
    exists|i: int| #![trigger caps[i]]
        0 <= i < caps.len() && is_comment_at(caps[i], row) && (caps[i].text matches Ok(t) && clean_comment(t@) == c)
}

/// The rows `line - cs.len()` to `line - 1` each hold exactly one
/// doc-comment capture, whose text reads and cleans to the matching
/// non-empty member of `cs`; and the row above them, if any, holds none.
pub open spec fn comment_run_above(caps: Seq<Capture>, line: nat, cs: Seq<Seq<char>>) -> bool {
    &&& cs.len() <= line
    &&& forall|j: int| 0 <= j < cs.len() ==> (#[trigger] cs[j]).len() > 0
    &&& forall|j: int| #![trigger cs[j]] 0 <= j < cs.len() ==> row_holds_comment(caps, line - cs.len() + j, cs[j])
    &&& forall|i1: int, i2: int|
        0 <= i1 < caps.len() && 0 <= i2 < caps.len() && line - cs.len() <= caps[i1].start_row < line
            && is_comment_at(#[trigger] caps[i1], caps[i1].start_row as int) && is_comment_at(
            #[trigger] caps[i2],
            caps[i1].start_row as int,
        ) ==> i1 == i2
    &&& cs.len() < line ==> forall|i: int|
        0 <= i < caps.len() ==> !is_comment_at(#[trigger] caps[i], line - cs.len() - 1)
}

/// The doc comment above a definition is the unbroken run of comment lines
/// directly above it: where rows `line - k` to `line - 1` each hold one
/// non-empty comment and the row above them none, it is those `k` cleaned
/// comments joined top-down by spaces, in front of what was gathered below.
pub proof fn lemma_comments_above_run(caps: Seq<Capture>, line: nat, cs: Seq<Seq<char>>, acc: Option<Seq<char>>)
    requires
        comment_run_above(caps, line, cs),
    ensures
        comments_above(caps, line, acc) == AboveOutcome::Done(
            if cs.len() == 0 {
                acc
            } else {
                match acc {
                    None => Some(space_joined(cs)),
                    Some(e) => Some(space_joined(cs) + seq![' '] + e),
                }
            },
        ),
    decreases line,
{
    reveal(last_comment_at);
    reveal(two_comments_at);
    let k = cs.len();
    if line == 0 {
    } else if k == 0 {
        let r = line - 1;
        assert(forall|i: int| 0 <= i < caps.len() ==> !is_comment_at(#[trigger] caps[i], r));
    } else {
        let r = (line - 1) as nat;
        let c = cs[k - 1];
        assert(c.len() > 0);
        assert(row_holds_comment(caps, line - k + (k - 1), cs[k - 1]));
        let i0 = choose|i: int|
            0 <= i < caps.len() && is_comment_at(#[trigger] caps[i], r as int) && (caps[i].text matches Ok(t)
                && clean_comment(t@) == cs[k - 1]);
        assert(0 <= i0 < caps.len() && is_comment_at(caps[i0], r as int));
        assert forall|i: int| 0 <= i < caps.len() && is_comment_at(caps[i], r as int) implies i == i0 by {
            assert(is_comment_at(caps[i0], caps[i0].start_row as int));
        }
        assert(last_comment_at(caps, r as int) == Some(i0));
        assert(!two_comments_at(caps, r as int));
        let acc2 = prepend_comment(c, acc);
        let rest = cs.drop_last();
        assert(comment_run_above(caps, r, rest)) by {
            assert forall|j: int| 0 <= j < rest.len() implies row_holds_comment(
                caps,
                r - rest.len() + j,
                #[trigger] rest[j],
            ) by {
                assert(rest[j] == cs[j]);
                assert(r - rest.len() + j == line - cs.len() + j);
            }
            assert forall|j: int| 0 <= j < rest.len() implies (#[trigger] rest[j]).len() > 0 by {
                assert(rest[j] == cs[j]);
            }
        }
        lemma_comments_above_run(caps, r, rest, acc2);
        if k == 1 {
            assert(space_joined(cs) == c);
        } else {
            assert(space_joined(cs) == space_joined(rest) + seq![' '] + c);
            match acc {
                None => {},
                Some(e) => {
                    assert(space_joined(rest) + seq![' '] + (c + seq![' '] + e) =~= space_joined(rest)
                        + seq![' '] + c + seq![' '] + e);
                },
            }
        }
    }
}

/// A doc comment of consecutive comment lines directly above a definition
/// keeps every line: gathered upwards from the definition's row, it is the
/// cleaned comments joined top-down by spaces.
pub proof fn lemma_doc_comment_keeps_every_line(caps: Seq<Capture>, line: nat, cs: Seq<Seq<char>>)
    requires
        cs.len() > 0,
        comment_run_above(caps, line, cs),
    ensures
        comments_above(caps, line, None) == AboveOutcome::Done(Some(space_joined(cs))),
{
    lemma_comments_above_run(caps, line, cs, None);
}

/// The doc comment once the comment on the definition's last line is
/// added: it is appended to the comments above, with a space between.
pub open spec fn with_end_comment(caps: Seq<Capture>, end: u32, acc: Option<Seq<char>>) -> Result<Option<Seq<char>>, Seq<char>> {
    match first_comment_on_line(caps, end) {
        None => Ok(acc),
        Some(i) => match caps[i].text {
            Err(e) => Err(e@),
            Ok(t) => {
                let c = clean_comment(t@);
                if c.len() == 0 {
                    Ok(acc)
                } else {
                    match acc {
                        Some(e) => Ok(Some(e + seq![' '] + c)),
                        None => Ok(Some(c)),
                    }
                }
            },
        },
    }
}

/// The message given when a match lacks a capture it needs.
pub open spec fn missing_capture_message() -> Seq<char> {
    "Definition match missing name capture"@
}

/// The outcome of reading one definition match.
pub enum MatchOutcome {
    Parsed(Seq<char>, DefinitionView),
    Failed(Seq<char>),
    /// The row or column arithmetic would go below zero.
    Underflow,
}

/// What one definition match of `file` gives: the defined name and the
/// definition, with its doc comment and the position of its name.
pub open spec fn def_match_spec(caps: Seq<Capture>, file: Seq<char>) -> MatchOutcome {
    match first_capture(caps, 2) {
        None => MatchOutcome::Failed(missing_capture_message()),
        Some(ni) => match first_capture(caps, 1) {
            None => MatchOutcome::Failed(missing_capture_message()),
            Some(mi) => {
                let start = caps[ni].start_row as u32;
                let end = caps[ni].end_row as u32;
                let nm = caps[mi];
                let line = nm.start_row as u32;
                let column = nm.start_column as u32;
                if (nm.end_column as u32) < column {
                    MatchOutcome::Underflow
                } else {
                    let len = (nm.end_column as u32 - column) as u32;
                    match nm.text {
                        Err(e) => MatchOutcome::Failed(e@),
                        Ok(name) => match comments_above(caps, start as nat, None) {
                            AboveOutcome::Done(above) => match with_end_comment(caps, end, above) {
                                Ok(comment) => MatchOutcome::Parsed(
                                    name@,
                                    DefinitionView {
                                        comment,
                                        source: SourceView::Source { file, line, column, len },
                                    },
                                ),
                                Err(e) => MatchOutcome::Failed(e),
                            },
                            AboveOutcome::Failed(e) => MatchOutcome::Failed(e),
                            AboveOutcome::Underflow => MatchOutcome::Underflow,
                        },
                    }
                }
            },
        },
    }
}

/// Where position `i` is the first with query index `idx`, `first_capture` gives it.
proof fn lemma_first_capture(caps: Seq<Capture>, idx: u32, i: int)
    requires
        0 <= i < caps.len(),
        caps[i].index == idx,
        forall|j: int| 0 <= j < i ==> caps[j].index != idx,
    ensures
        first_capture(caps, idx) == Some(i),
{
    reveal(first_capture);
    let c = choose|c: int|
        0 <= c < caps.len() && caps[c].index == idx && forall|j: int| 0 <= j < c ==> caps[j].index != idx;
    assert(0 <= c < caps.len() && caps[c].index == idx && forall|j: int| 0 <= j < c ==> caps[j].index != idx);
    if c < i {
        assert(caps[c].index != idx);
    }
    if i < c {
        assert(caps[i].index != idx);
    }
}

/// Where position `i` is the first doc comment on line `row`, `first_comment_on_line` gives it.
proof fn lemma_first_comment_on_line(caps: Seq<Capture>, row: u32, i: int)
    requires
        0 <= i < caps.len(),
        caps[i].index == 0 && caps[i].start_row as u32 == row,
        forall|j: int| 0 <= j < i ==> !(caps[j].index == 0 && caps[j].start_row as u32 == row),
    ensures
        first_comment_on_line(caps, row) == Some(i),
{
    reveal(first_comment_on_line);
    let c = choose|c: int|
        0 <= c < caps.len() && caps[c].index == 0 && caps[c].start_row as u32 == row && forall|j: int|
            0 <= j < c ==> !(caps[j].index == 0 && caps[j].start_row as u32 == row);
    assert(0 <= c < caps.len() && caps[c].index == 0 && caps[c].start_row as u32 == row && forall|
        j: int,
    |
        0 <= j < c ==> !(caps[j].index == 0 && caps[j].start_row as u32 == row));
    if c < i {
        assert(!(caps[c].index == 0 && caps[c].start_row as u32 == row));
    }
    if i < c {
        assert(!(caps[i].index == 0 && caps[i].start_row as u32 == row));
    }
}

/// The position of the first capture with query index `idx`.
fn find_capture(captures: &[Capture], idx: u32) -> (r: Option<usize>)
    ensures
        r matches Some(i) ==> i < captures@.len() && first_capture(captures@, idx) == Some(i as int),
        r is None ==> first_capture(captures@, idx) is None,
{
    reveal(first_capture);
    let n = captures.len();
    let mut i: usize = 0;
    while i < n
        invariant
            n == captures@.len(),
            i <= n,
            forall|j: int| 0 <= j < i ==> captures@[j].index != idx,
        decreases n - i,
    {
        if captures[i].index == idx {
            proof {
                lemma_first_capture(captures@, idx, i as int);
            }
            return Some(i);
        }
        i = i + 1;
    }
    None
}

/// The position of the last doc-comment capture on `row`, and whether
/// another one lies on that row too.
fn find_comments_at(captures: &[Capture], row: usize) -> (r: (Option<usize>, bool))
    ensures
        r.0 matches Some(i) ==> i < captures@.len() && last_comment_at(captures@, row as int) == Some(
            i as int,
        ),
        r.0 is None ==> last_comment_at(captures@, row as int) is None,
        r.1 == two_comments_at(captures@, row as int),
{
    reveal(last_comment_at);
    reveal(two_comments_at);
    let ghost caps = captures@;
    let n = captures.len();
    let mut last: Option<usize> = None;
    let mut two = false;
    let mut i: usize = 0;
    while i < n
        invariant
            n == caps.len(),
            caps == captures@,
            i <= n,
            last matches Some(l) ==> l < i && is_comment_at(caps[l as int], row as int) && forall|
                j: int,
            |
                l < j < i ==> !is_comment_at(caps[j], row as int),
            last is None ==> forall|j: int| 0 <= j < i ==> !is_comment_at(caps[j], row as int),
            two == exists|a: int, b: int|
                0 <= a < b < i && is_comment_at(caps[a], row as int) && is_comment_at(
                    caps[b],
                    row as int,
                ),
        decreases n - i,
    {
        if captures[i].index == 0 && captures[i].start_row == row {
            if last.is_some() {
                two = true;
            }
            proof {
                if two {
                    if last is Some {
                        assert(is_comment_at(caps[last->0 as int], row as int));
                        assert(is_comment_at(caps[i as int], row as int));
                    }
                }
            }
            last = Some(i);
        }
        i = i + 1;
    }
    proof {
        match last {
            Some(l) => {
                let c = choose|c: int|
                    0 <= c < caps.len() && is_comment_at(caps[c], row as int) && forall|j: int|
                        c < j < caps.len() ==> !is_comment_at(caps[j], row as int);
                assert(0 <= l < caps.len() && is_comment_at(caps[l as int], row as int));
                if c < l {
                    assert(!is_comment_at(caps[l as int], row as int));
                }
                if l < c {
                    assert(!is_comment_at(caps[c], row as int));
                }
            },
            None => {},
        }
    }
    (last, two)
}

/// The position of the first doc-comment capture whose row, as a `u32`, is `row`.
fn find_comment_on_line(captures: &[Capture], row: u32) -> (r: Option<usize>)
    ensures
        r matches Some(i) ==> i < captures@.len() && first_comment_on_line(captures@, row) == Some(
            i as int,
        ),
        r is None ==> first_comment_on_line(captures@, row) is None,
{
    reveal(first_comment_on_line);
    let ghost caps = captures@;
    let n = captures.len();
    let mut i: usize = 0;
    while i < n
        invariant
            n == caps.len(),
            caps == captures@,
            i <= n,
            forall|j: int| 0 <= j < i ==> !(caps[j].index == 0 && caps[j].start_row as u32 == row),
        decreases n - i,
    {
        if captures[i].index == 0 && captures[i].start_row as u32 == row {
            proof {
                lemma_first_comment_on_line(captures@, row, i as int);
            }
            return Some(i);
        }
        i = i + 1;
    }
    None
}

/// `a`, a space and `b`.
fn join_with_space(a: &String, b: &String) -> (r: String)
    ensures
        r@ == a@ + seq![' '] + b@,
{
    proof {
        reveal_strlit(" ");
    }
    a.clone().concat(" ").concat(b.as_str())
}

/// Gathers the doc comment above a definition that starts on line
/// `start`; `Err(Some(e))` where reading a comment failed, `Err(None)` where
/// the row counter would go below zero.
fn gather_comments_above(captures: &[Capture], start: u32) -> (r: Result<Option<String>, Option<String>>)
    ensures
        match r {
            Ok(c) => comments_above(captures@, start as nat, None) == AboveOutcome::Done(c.deep_view()),
            Err(Some(e)) => comments_above(captures@, start as nat, None) == AboveOutcome::Failed(e@),
            Err(None) => comments_above(captures@, start as nat, None) == AboveOutcome::Underflow,
        },
{
    let ghost caps = captures@;
    let mut comment: Option<String> = None;
    let mut current_line: u32 = start;
    let ghost full = comments_above(caps, start as nat, None);
    loop
        invariant_except_break
            full == comments_above(caps, current_line as nat, comment.deep_view()),
        invariant
            caps == captures@,
            current_line <= start,
            full == comments_above(caps, start as nat, None),
        ensures
            full == AboveOutcome::Done(comment.deep_view()),
        decreases current_line,
    {
        if current_line == 0 {
            break;
        }
        let r = current_line - 1;
        let (last, two) = find_comments_at(captures, r as usize);
        let i = match last {
            Some(i) => i,
            None => {
                break;
            },
        };
        let c = match &captures[i].text {
            Ok(t) => clean_comment_text(t.as_str()),
            Err(e) => {
                return Err(Some(e.clone()));
            },
        };
        let ghost acc_before = comment.deep_view();
        if !c.as_str().is_empty() {
            comment = match comment {
                Some(existing) => Some(join_with_space(&c, &existing)),
                None => Some(c),
            };
        }
        assert(comment.deep_view() == prepend_comment(clean_comment(
            caps[i as int].text->Ok_0@,
        ), acc_before));
        if two {
            if r == 0 {
                return Err(None);
            }
            break;
        }
        current_line = r;
    }
    Ok(comment)
}

/// The outcome of reading one match, as executable values.
pub enum DefMatch {
    Parsed(String, Definition),
    Failed(String),
    Underflow,
}

impl DefMatch {
    /// The mathematical value of the outcome.
    pub open spec fn view(self) -> MatchOutcome {
        match self {
            DefMatch::Parsed(n, d) => MatchOutcome::Parsed(n@, d.deep_view()),
            DefMatch::Failed(e) => MatchOutcome::Failed(e@),
            DefMatch::Underflow => MatchOutcome::Underflow,
        }
    }
}

/// Reads one definition match of `file`, reporting where the row and
/// column arithmetic would go below zero.
pub fn eval_def_match(captures: &[Capture], file: String) -> (r: DefMatch)
    ensures
        r.view() == def_match_spec(captures@, file@),
{
    let ghost caps = captures@;
    let ni = match find_capture(captures, 2) {
        Some(i) => i,
        None => {
            return DefMatch::Failed("Definition match missing name capture".to_owned());
        },
    };
    let node_start_line = captures[ni].start_row as u32;
    let node_end_line = captures[ni].end_row as u32;
    let mi = match find_capture(captures, 1) {
        Some(i) => i,
        None => {
            return DefMatch::Failed("Definition match missing name capture".to_owned());
        },
    };
    let line = captures[mi].start_row as u32;
    let column = captures[mi].start_column as u32;
    let end_column = captures[mi].end_column as u32;
    if end_column < column {
        return DefMatch::Underflow;
    }
    let len = end_column - column;
    let name = match &captures[mi].text {
        Ok(t) => t.clone(),
        Err(e) => {
            return DefMatch::Failed(e.clone());
        },
    };
    let above = match gather_comments_above(captures, node_start_line) {
        Ok(c) => c,
        Err(Some(e)) => {
            return DefMatch::Failed(e);
        },
        Err(None) => {
            return DefMatch::Underflow;
        },
    };
    let ghost above_view = above.deep_view();
    let comment: Option<String> = match find_comment_on_line(captures, node_end_line) {
        None => above,
        Some(i) => {
            let c = match &captures[i].text {
                Ok(t) => clean_comment_text(t.as_str()),
                Err(e) => {
                    return DefMatch::Failed(e.clone());
                },
            };
            if c.as_str().is_empty() {
                above
            } else {
                match above {
                    Some(existing) => Some(join_with_space(&existing, &c)),
                    None => Some(c),
                }
            }
        },
    };
    assert(with_end_comment(caps, node_end_line, above_view) == Ok::<
        Option<Seq<char>>,
        Seq<char>,
    >(comment.deep_view()));
    DefMatch::Parsed(
        name,
        Definition { comment, source: SourceInfo::Source { file, line, column, len } },
    )
}

/// Whether reading the match would make the row or column arithmetic go below zero.
pub open spec fn match_underflows(caps: Seq<Capture>) -> bool {
    def_match_spec(caps, Seq::empty()) is Underflow
}

/// Whether the underflow outcome depends on the file name: it does not.
proof fn lemma_underflow_independent_of_file(caps: Seq<Capture>, file: Seq<char>)
    ensures
        (def_match_spec(caps, file) is Underflow) == match_underflows(caps),
{
}

impl Definition {
    /// Reads the captures of one definition match in `file`: the defined
    /// name, and the definition with its doc comment and the position of its
    /// name. Fails where a needed capture is missing or a text is not UTF-8.
    pub fn from_def_match(captures: &[Capture], file: String) -> (r: Result<(String, Definition), String>)
        requires
            !match_underflows(captures@),
        ensures
            match def_match_spec(captures@, file@) {
                MatchOutcome::Parsed(n, d) => r matches Ok((rn, rd)) && rn@ == n && rd.deep_view() == d,
                MatchOutcome::Failed(e) => r matches Err(re) && re@ == e,
                MatchOutcome::Underflow => false,
            },
    {
        proof {
            lemma_underflow_independent_of_file(captures@, file@);
        }
        match eval_def_match(captures, file) {
            DefMatch::Parsed(n, d) => Ok((n, d)),
            DefMatch::Failed(e) => Err(e),
            DefMatch::Underflow => Err(String::new()),
        }
    }

    /// Reads every match of a file's definition query and groups the
    /// definitions by name, each name's definitions in match order.
    pub fn parse_definitions(matches: &Vec<Vec<Capture>>, path: &str) -> (r: Result<StrMap<Vec<Definition>>, String>)
        requires
            all_matches_parse(matches@.map_values(|m: Vec<Capture>| m@), path@),
        ensures
            r matches Ok(m) && m.deep_view() == group_matches(matches@.map_values(|m: Vec<Capture>| m@), path@),
    {
        let ghost ms = matches@.map_values(|m: Vec<Capture>| m@);
        let mut defs: StrMap<Vec<Definition>> = StrMap::new();
        let n = matches.len();
        let mut i: usize = 0;
        while i < n
            invariant
                n == matches@.len(),
                ms == matches@.map_values(|m: Vec<Capture>| m@),
                all_matches_parse(ms, path@),
                i <= n,
                defs.deep_view() == group_matches(ms.take(i as int), path@),
            decreases n - i,
        {
            assert(ms[i as int] == matches@[i as int]@);
            assert(def_match_spec(ms[i as int], path@) is Parsed);
            let (name, def) = match eval_def_match(matches[i].as_slice(), path.to_owned()) {
                DefMatch::Parsed(name, def) => (name, def),
                _ => {
                    return Err(String::new());
                },
            };
            add_definition_to(&mut defs, name, def);
            assert(ms.take(i + 1).drop_last() =~= ms.take(i as int));
            i = i + 1;
        }
        assert(ms.take(n as int) =~= ms);
        Ok(defs)
    }
}

/// Every match of `ms` reads into a definition.
pub open spec fn all_matches_parse(ms: Seq<Seq<Capture>>, file: Seq<char>) -> bool {
    forall|i: int| 0 <= i < ms.len() ==> def_match_spec(#[trigger] ms[i], file) is Parsed
}

/// `l` with `d` added at the end of the definitions of `name`.
pub open spec fn add_definition(l: Seq<(Seq<char>, Seq<DefinitionView>)>, name: Seq<char>, d: DefinitionView) -> Seq<(Seq<char>, Seq<DefinitionView>)> {
    assoc_insert(
        l,
        name,
        match assoc_get(l, name) {
            Some(v) => v.push(d),
            None => seq![d],
        },
    )
}

/// The definitions that the matches `ms` of `file` give, grouped by name.
pub open spec fn group_matches(ms: Seq<Seq<Capture>>, file: Seq<char>) -> Seq<(Seq<char>, Seq<DefinitionView>)>
    decreases ms.len(),
{
    if ms.len() == 0 {
        Seq::empty()
    } else {
        let rest = group_matches(ms.drop_last(), file);
        match def_match_spec(ms.last(), file) {
            MatchOutcome::Parsed(n, d) => add_definition(rest, n, d),
            _ => rest,
        }
    }
}

/// Adds `def` at the end of the definitions of `name` in `defs`.
pub fn add_definition_to(defs: &mut StrMap<Vec<Definition>>, name: String, def: Definition)
    ensures
        final(defs).deep_view() == add_definition(old(defs).deep_view(), name@, def.deep_view()),
{
    let ghost l = defs.deep_view();
    proof {
        lemma_find_some(l, name@);
    }
    match defs.find(name.as_str()) {
        Some(i) => {
            let mut v = defs.replace_at(i, Vec::new());
            let ghost before = v.deep_view();
            v.push(def);
            assert(v.deep_view() =~= before.push(def.deep_view()));
            let ghost nv = v.deep_view();
            defs.replace_at(i, v);
            assert(defs.deep_view() =~= l.update(i as int, (name@, nv)));
        },
        None => {
            let mut v: Vec<Definition> = Vec::new();
            v.push(def);
            assert(v.deep_view() =~= seq![def.deep_view()]);
            defs.insert(name, v);
        },
    }
}

} // verus!
