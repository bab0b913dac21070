//! Filters on strings (paths, referers, addresses): boolean expressions
//! over regular expressions.
use vstd::prelude::*;

use lazy_regex::regex::{Error as RegexError, Regex};

use crate::text::{chars_of, string_of, trim_end_of, trim_range, trim_start_of};

verus! {

#[verifier::external_type_specification]
#[verifier::external_body]
pub struct ExRegex(Regex);

#[verifier::external_type_specification]
#[verifier::external_body]
pub struct ExRegexError(RegexError);

/// Whether the regular expression `pattern` compiles.
pub uninterp spec fn regex_compiles(pattern: Seq<char>) -> bool;

/// Whether the regular expression `pattern` matches somewhere in `haystack`.
pub uninterp spec fn regex_matches(pattern: Seq<char>, haystack: Seq<char>) -> bool;

/// A compiled regular expression with the text it was compiled from.
#[derive(Debug)]
pub struct Pattern {
    source: String,
    re: Regex,
}

impl Pattern {
    pub closed spec fn source(&self) -> Seq<char> {
        self.source@
    }
}

/// Relies on `regex::Regex::new`: it compiles the expression, or fails when
/// it is not a valid one (or too large). The pattern keeps its source.
#[verifier::external_body]
fn compile(source: &str) -> (r: Result<Pattern, RegexError>)
    ensures
        r is Ok == regex_compiles(source@),
        r matches Ok(p) ==> p.source() == source@,
{
    match Regex::new(source) {
        Ok(re) => Ok(Pattern { source: source.to_string(), re }),
        Err(e) => Err(e),
    }
}

/// Relies on `regex::Regex::is_match`: whether the expression, compiled from
/// the pattern's source, matches somewhere in the haystack.
#[verifier::external_body]
fn pattern_matches(p: &Pattern, haystack: &str) -> (r: bool)
    ensures
        r == regex_matches(p.source(), haystack@),
{
    p.re.is_match(haystack)
}

/// Whether the expression `expr` compiles and matches somewhere in `s`.
pub(crate) fn text_matches(expr: &str, s: &str) -> (r: bool)
    ensures
        r == (regex_compiles(expr@) && regex_matches(expr@, s@)),
{
    match compile(expr) {
        Ok(p) => pattern_matches(&p, s),
        Err(_) => false,
    }
}

/// The operators of filter expressions.
#[derive(Debug, Clone, Copy, PartialEq, Eq, Structural)]
pub enum BoolOperator {
    And,
    Or,
    Not,
}

impl BoolOperator {
    /// Whether the second operand can be skipped once the first is known.
    pub fn short_circuit(self, a: bool) -> (r: bool)
        ensures
            r == ((self == BoolOperator::And && !a) || (self == BoolOperator::Or && a)),
    {
        match (self, a) {
            (BoolOperator::And, false) => true,
            (BoolOperator::Or, true) => true,
            _ => false,
        }
    }

    /// Applies the operator: binary ones to both operands, `Not` to the first.
    pub fn eval(self, a: bool, b: bool) -> (r: bool)
        ensures
            r == match self {
                BoolOperator::And => a && b,
                BoolOperator::Or => a || b,
                BoolOperator::Not => !a,
            },
    {
        match self {
            BoolOperator::And => a && b,
            BoolOperator::Or => a || b,
            BoolOperator::Not => !a,
        }
    }
}

/// An expression tree, atoms given by their text.
pub ghost enum ExprView {
    Atom(Seq<char>),
    Not(Box<ExprView>),
    And(Box<ExprView>, Box<ExprView>),
    Or(Box<ExprView>, Box<ExprView>),
}

/// Whether the candidate passes the expression.
pub open spec fn eval_view(e: ExprView, h: Seq<char>) -> bool
    decreases e,
{
    match e {
        ExprView::Atom(p) => regex_matches(p, h),
        ExprView::Not(a) => !eval_view(*a, h),
        ExprView::And(a, b) => eval_view(*a, h) && eval_view(*b, h),
        ExprView::Or(a, b) => eval_view(*a, h) || eval_view(*b, h),
    }
}

/// Whether every atom of the expression compiles.
pub open spec fn all_compile(e: ExprView) -> bool
    decreases e,
{
    match e {
        ExprView::Atom(p) => regex_compiles(p),
        ExprView::Not(a) => all_compile(*a),
        ExprView::And(a, b) => all_compile(*a) && all_compile(*b),
        ExprView::Or(a, b) => all_compile(*a) && all_compile(*b),
    }
}

/// An expression whose atoms are still text.
#[derive(Debug)]
pub enum RawExpr {
    Atom(Vec<char>),
    Not(Box<RawExpr>),
    And(Box<RawExpr>, Box<RawExpr>),
    Or(Box<RawExpr>, Box<RawExpr>),
}

impl View for RawExpr {
    type V = ExprView;

    open spec fn view(&self) -> ExprView
        decreases self,
    {
        match self {
            RawExpr::Atom(a) => ExprView::Atom(a@),
            RawExpr::Not(a) => ExprView::Not(Box::new((**a).view())),
            RawExpr::And(a, b) => ExprView::And(Box::new((**a).view()), Box::new((**b).view())),
            RawExpr::Or(a, b) => ExprView::Or(Box::new((**a).view()), Box::new((**b).view())),
        }
    }
}

/// A compiled expression.
#[derive(Debug)]
pub enum BoolExpr {
    Atom(Pattern),
    Not(Box<BoolExpr>),
    And(Box<BoolExpr>, Box<BoolExpr>),
    Or(Box<BoolExpr>, Box<BoolExpr>),
}

impl View for BoolExpr {
    type V = ExprView;

    open spec fn view(&self) -> ExprView
        decreases self,
    {
        match self {
            BoolExpr::Atom(p) => ExprView::Atom(p.source()),
            BoolExpr::Not(a) => ExprView::Not(Box::new((**a).view())),
            BoolExpr::And(a, b) => ExprView::And(Box::new((**a).view()), Box::new((**b).view())),
            BoolExpr::Or(a, b) => ExprView::Or(Box::new((**a).view()), Box::new((**b).view())),
        }
    }
}

/// Compiles the atoms of the expression, left to right, stopping at the
/// first that fails.
fn compile_expr(e: &RawExpr) -> (r: Result<BoolExpr, RegexError>)
    ensures
        r is Ok == all_compile(e@),
        r matches Ok(b) ==> b@ == e@,
    decreases e,
{
    match e {
        RawExpr::Atom(a) => {
            let s = string_of(a.as_slice());
            match compile(s.as_str()) {
                Ok(p) => Ok(BoolExpr::Atom(p)),
                Err(x) => Err(x),
            }
        },
        RawExpr::Not(a) => match compile_expr(a) {
            Ok(x) => Ok(BoolExpr::Not(Box::new(x))),
            Err(x) => Err(x),
        },
        RawExpr::And(a, b) => match compile_expr(a) {
            Err(x) => Err(x),
            Ok(x) => match compile_expr(b) {
                Err(y) => Err(y),
                Ok(y) => Ok(BoolExpr::And(Box::new(x), Box::new(y))),
            },
        },
        RawExpr::Or(a, b) => match compile_expr(a) {
            Err(x) => Err(x),
            Ok(x) => match compile_expr(b) {
                Err(y) => Err(y),
                Ok(y) => Ok(BoolExpr::Or(Box::new(x), Box::new(y))),
            },
        },
    }
}

/// Evaluates the expression on the candidate, left operand first, skipping
/// the right one when the left decides.
fn eval_expr(e: &BoolExpr, h: &str) -> (r: bool)
    ensures
        r == eval_view(e@, h@),
    decreases e,
{
    match e {
        BoolExpr::Atom(p) => pattern_matches(p, h),
        BoolExpr::Not(a) => BoolOperator::Not.eval(eval_expr(a, h), false),
        BoolExpr::And(a, b) => {
            let x = eval_expr(a, h);
            if BoolOperator::And.short_circuit(x) {
                x
            } else {
                BoolOperator::And.eval(x, eval_expr(b, h))
            }
        },
        BoolExpr::Or(a, b) => {
            let x = eval_expr(a, h);
            if BoolOperator::Or.short_circuit(x) {
                x
            } else {
                BoolOperator::Or.eval(x, eval_expr(b, h))
            }
        },
    }
}

/// Why a string filter pattern could not be read.
#[derive(Debug)]
pub enum ParseStrFilterError {
    /// The pattern, and what is wrong with it.
    InvalidPattern(String, String),
    InvalidRegex(RegexError),
}

/// A filter on strings.
#[derive(Debug)]
pub struct StrFilter {
    expr: Option<BoolExpr>,
}

pub open spec fn opt_view(e: Option<BoolExpr>) -> Option<ExprView> {
    match e {
        Some(x) => Some(x@),
        None => None,
    }
}

/// What reading a pattern gives: the expression, or a reason when the
/// pattern is malformed, or nothing when an atom does not compile.
pub type StrFilterResult = Result<Option<ExprView>, Option<Seq<char>>>;

impl StrFilter {
    pub closed spec fn expr(&self) -> Option<ExprView> {
        opt_view(self.expr)
    }

    /// Whether the candidate passes; an empty expression passes nothing.
    pub open spec fn spec_accepts(&self, h: Seq<char>) -> bool {
        match self.expr() {
            Some(e) => eval_view(e, h),
            None => false,
        }
    }

    pub fn accepts(&self, candidate: &str) -> (r: bool)
        ensures
            r == self.spec_accepts(candidate@),
    {
        match &self.expr {
            Some(e) => eval_expr(e, candidate),
            None => false,
        }
    }

    /// What reading `s` gives: the comma syntax when it holds a comma, else
    /// the syntax with operators and parentheses.
    pub open spec fn spec_new(s: Seq<char>) -> StrFilterResult {
        if s.contains(',') {
            spec_comma(s)
        } else {
            spec_be(s)
        }
    }

    pub fn new(pattern: &str) -> (r: Result<StrFilter, ParseStrFilterError>)
        ensures
            same_filter_result(r, pattern@, StrFilter::spec_new(pattern@)),
    {
        let c = chars_of(pattern);
        let mut i: usize = 0;
        while i < c.len()
            invariant
                0 <= i <= c.len(),
                c@ == pattern@,
                forall|k: int| 0 <= k < i ==> c@[k] != ',',
            decreases c.len() - i,
        {
            if c[i] == ',' {
                assert(pattern@[i as int] == ',');
                assert(exists|k: int| 0 <= k < pattern@.len() && pattern@[k] == ',');
                assert(pattern@.contains(','));
                return StrFilter::with_comma_syntax(pattern);
            }
            i = i + 1;
        }
        assert(!c@.contains(','));
        StrFilter::with_be_syntax(pattern)
    }

    /// Reads the comma syntax: atoms separated by commas, all required,
    /// each negated when it starts with `!`.
    pub fn with_comma_syntax(pattern: &str) -> (r: Result<StrFilter, ParseStrFilterError>)
        ensures
            same_filter_result(r, pattern@, spec_comma(pattern@)),
    {
        let c = chars_of(pattern);
        let n = c.len();
        let mut expr: Option<BoolExpr> = None;
        let mut from: usize = 0;
        loop
            invariant
                from <= n == c.len(),
                c@ == pattern@,
                comma_fold(c@, 0, None) == comma_fold(c@, from as int, opt_view(expr)),
            decreases n - from,
        {
            let end = match crate::text::find_char(&c, from, n, ',') {
                Some(i) => i,
                None => n,
            };
            proof {
                crate::text::lemma_first_index_of(c@, from as int, n as int, ',');
            }
            let (a, b) = trim_range(&c, from, end);
            if a == b {
                return Err(ParseStrFilterError::InvalidPattern(string_of(c.as_slice()), string_of(chars_of("empty token").as_slice())));
            }
            let negated = c[a] == '!';
            let start = if negated { a + 1 } else { a };
            let mut atom_chars: Vec<char> = Vec::new();
            let mut k: usize = start;
            while k < b
                invariant
                    start <= k <= b <= c.len(),
                    atom_chars@ == c@.subrange(start as int, k as int),
                decreases b - k,
            {
                atom_chars.push(c[k]);
                k = k + 1;
                assert(atom_chars@ =~= c@.subrange(start as int, k as int));
            }
            let atom_text = string_of(atom_chars.as_slice());
            let p = match compile(atom_text.as_str()) {
                Ok(p) => p,
                Err(e) => return Err(ParseStrFilterError::InvalidRegex(e)),
            };
            let ghost text = c@.subrange(start as int, b as int);
            assert(atom_chars@ == text);
            let atom = BoolExpr::Atom(p);
            assert(atom@ == ExprView::Atom(text));
            let leaf = if negated { BoolExpr::Not(Box::new(atom)) } else { atom };
            let ghost leaf_v = if negated { ExprView::Not(Box::new(ExprView::Atom(text))) } else { ExprView::Atom(text) };
            assert(leaf@ == leaf_v);
            let ghost acc = opt_view(expr);
            expr = match expr {
                None => Some(leaf),
                Some(prev) => Some(BoolExpr::And(Box::new(prev), Box::new(leaf))),
            };
            let ghost e = match acc {
                None => leaf_v,
                Some(pv) => ExprView::And(Box::new(pv), Box::new(leaf_v)),
            };
            assert(opt_view(expr) == Some(e));
            if end >= n {
                return Ok(StrFilter { expr });
            }
            from = end + 1;
        }
    }

    /// Reads the syntax with `&`, `|`, `!` and parentheses. Operators `&`
    /// and `|` and the opening parenthesis need a space after them, the
    /// closing parenthesis a space before it; other spaces are dropped.
    pub fn with_be_syntax(pattern: &str) -> (r: Result<StrFilter, ParseStrFilterError>)
        ensures
            same_filter_result(r, pattern@, spec_be(pattern@)),
    {
        let c = chars_of(pattern);
        let mut st = Builder::new();
        let mut i: usize = 0;
        while i < c.len()
            invariant
                0 <= i <= c.len(),
                c@ == pattern@,
                st.wf(),
                be_state(c@, i as int) == Ok::<BuildState, Seq<char>>(st@),
            decreases c.len() - i,
        {
            match st.step(&c, i) {
                Ok(()) => {},
                Err(reason) => {
                    proof {
                        lemma_be_error_persists(c@, i as int + 1, c@.len() as int, reason@);
                    }
                    return Err(ParseStrFilterError::InvalidPattern(string_of(c.as_slice()), reason));
                },
            }
            i = i + 1;
        }
        let raw = match st.finish() {
            Ok(raw) => raw,
            Err(reason) => {
                return Err(ParseStrFilterError::InvalidPattern(string_of(c.as_slice()), reason));
            },
        };
        match raw {
            None => Ok(StrFilter { expr: None }),
            Some(raw) => match compile_expr(&raw) {
                Ok(e) => Ok(StrFilter { expr: Some(e) }),
                Err(e) => Err(ParseStrFilterError::InvalidRegex(e)),
            },
        }
    }
}

/// Whether an executable result is the one a specification gives.
/// A malformed pattern is reported with the pattern itself and the reason.
pub open spec fn same_filter_result(r: Result<StrFilter, ParseStrFilterError>, pattern: Seq<char>, s: StrFilterResult) -> bool {
    match r {
        Ok(f) => s == Ok::<Option<ExprView>, Option<Seq<char>>>(f.expr()),
        Err(ParseStrFilterError::InvalidPattern(p, reason)) => p@ == pattern && s == Err::<Option<ExprView>, Option<Seq<char>>>(Some(reason@)),
        Err(ParseStrFilterError::InvalidRegex(_)) => s == Err::<Option<ExprView>, Option<Seq<char>>>(None),
    }
}

/// The comma syntax read from `from` on, `acc` being the expression of the
/// atoms before.
pub open spec fn comma_fold(s: Seq<char>, from: int, acc: Option<ExprView>) -> StrFilterResult
    decreases s.len() - from,
{
    if from < 0 || from > s.len() {
        Err(Some("empty token"@))
    } else {
        let end = match crate::text::first_index_of(s, from, s.len() as int, ',') {
            Some(i) => i,
            None => s.len() as int,
        };
        let a = trim_start_of(s, from, end);
        let b = trim_end_of(s, a, end);
        if a >= b {
            Err(Some("empty token"@))
        } else {
            let negated = s[a] == '!';
            let text = s.subrange(if negated { a + 1 } else { a }, b);
            if !regex_compiles(text) {
                Err(None)
            } else {
                let leaf = if negated { ExprView::Not(Box::new(ExprView::Atom(text))) } else { ExprView::Atom(text) };
                let e = match acc {
                    None => leaf,
                    Some(p) => ExprView::And(Box::new(p), Box::new(leaf)),
                };
                if end >= s.len() || end < from {
                    Ok(Some(e))
                } else {
                    comma_fold(s, end + 1, Some(e))
                }
            }
        }
    }
}

pub open spec fn spec_comma(s: Seq<char>) -> StrFilterResult {
    comma_fold(s, 0, None)
}

/// What was pushed last while reading an expression.
#[derive(Debug, Clone, Copy, PartialEq, Eq, Structural)]
pub enum TokenKind {
    Nothing,
    Atom,
    Operator,
    OpeningPar,
    ClosingPar,
}

/// A node of the expression being read, not yet closed.
pub ghost struct FrameView {
    pub op: Option<BoolOperator>,
    pub unary: bool,
    pub left: Option<ExprView>,
    pub right: Option<ExprView>,
}

/// The state of the reading: open nodes (the first is the root, the last
/// the one being filled), what was pushed last, how many parentheses are
/// open, and the atom being read.
pub ghost struct BuildState {
    pub frames: Seq<FrameView>,
    pub last: TokenKind,
    pub openness: nat,
    pub atom: Option<Seq<char>>,
}

pub open spec fn empty_frame() -> FrameView {
    FrameView { op: None, unary: false, left: None, right: None }
}

pub open spec fn frame_full(f: FrameView) -> bool {
    if f.unary { f.left is Some } else { f.right is Some }
}

/// The expression of a finished node: a node without operator stands for
/// its left child; others need their operands.
pub open spec fn close_frame(f: FrameView) -> Result<Option<ExprView>, Seq<char>> {
    match f.op {
        None => Ok(f.left),
        Some(op) => if f.unary {
            match f.left {
                Some(a) => Ok(Some(ExprView::Not(Box::new(a)))),
                None => Err("unexpected end"@),
            }
        } else {
            match (f.left, f.right) {
                (Some(a), Some(b)) => Ok(Some(
                    if op == BoolOperator::Or {
                        ExprView::Or(Box::new(a), Box::new(b))
                    } else {
                        ExprView::And(Box::new(a), Box::new(b))
                    },
                )),
                _ => Err("unexpected end"@),
            }
        },
    }
}

/// The node with a child added, left first.
pub open spec fn attach(f: FrameView, e: Option<ExprView>) -> FrameView {
    match e {
        None => f,
        Some(x) => if f.left is None {
            FrameView { left: Some(x), ..f }
        } else {
            FrameView { right: Some(x), ..f }
        },
    }
}

/// The state with the atom being read put in the current node.
pub open spec fn flush(st: BuildState) -> BuildState {
    match st.atom {
        None => st,
        Some(a) => BuildState {
            frames: st.frames.update(
                st.frames.len() - 1,
                attach(st.frames.last(), Some(ExprView::Atom(a))),
            ),
            atom: None,
            ..st
        },
    }
}

/// The state after a binary operator.
pub open spec fn push_binary(st: BuildState, op: BoolOperator) -> Result<BuildState, Seq<char>> {
    let f = st.frames.last();
    if !frame_full(f) {
        Ok(BuildState {
            frames: st.frames.update(st.frames.len() - 1, FrameView { op: Some(op), ..f }),
            last: TokenKind::Operator,
            ..st
        })
    } else {
        match close_frame(f) {
            Err(m) => Err(m),
            Ok(e) => Ok(BuildState {
                frames: st.frames.drop_last().push(FrameView { op: Some(op), unary: false, left: e, right: None }),
                last: TokenKind::Operator,
                ..st
            }),
        }
    }
}

pub open spec fn opens(k: TokenKind) -> bool {
    k == TokenKind::Nothing || k == TokenKind::Operator || k == TokenKind::OpeningPar
}

pub open spec fn closes(k: TokenKind) -> bool {
    k == TokenKind::Atom || k == TokenKind::ClosingPar
}

/// The state after reading the character at `i`.
pub open spec fn be_step(st: BuildState, s: Seq<char>, i: int) -> Result<BuildState, Seq<char>> {
    let c = s[i];
    let space_after = i + 1 < s.len() && s[i + 1] == ' ';
    let space_before = i > 0 && s[i - 1] == ' ';
    if c == '(' && space_after {
        if opens(st.last) {
            Ok(BuildState {
                frames: st.frames.push(empty_frame()),
                last: TokenKind::OpeningPar,
                openness: st.openness + 1,
                ..st
            })
        } else {
            Err("unexpected opening parenthesis"@)
        }
    } else if c == ')' && space_before {
        if closes(st.last) && st.openness > 0 && st.frames.len() >= 2 {
            let fl = flush(st);
            match close_frame(fl.frames.last()) {
                Err(m) => Err(m),
                Ok(e) => {
                    let rest = fl.frames.drop_last();
                    Ok(BuildState {
                        frames: rest.update(rest.len() - 1, attach(rest.last(), e)),
                        last: TokenKind::ClosingPar,
                        openness: (st.openness - 1) as nat,
                        atom: None,
                    })
                },
            }
        } else {
            Err("unexpected closing parenthesis"@)
        }
    } else if c == '&' && space_after {
        if closes(st.last) {
            push_binary(flush(st), BoolOperator::And)
        } else {
            Err("unexpected '&'"@)
        }
    } else if c == '|' && space_after {
        if closes(st.last) {
            push_binary(flush(st), BoolOperator::Or)
        } else {
            Err("unexpected '|'"@)
        }
    } else if c == '!' && opens(st.last) {
        Ok(BuildState {
            frames: st.frames.push(FrameView { op: Some(BoolOperator::Not), unary: true, left: None, right: None }),
            last: TokenKind::Operator,
            ..st
        })
    } else if c == ' ' {
        Ok(st)
    } else if st.last == TokenKind::Atom {
        Ok(BuildState { atom: Some(st.atom.unwrap_or(Seq::empty()).push(c)), ..st })
    } else if st.last == TokenKind::ClosingPar {
        Err("unexpected atom"@)
    } else {
        Ok(BuildState { atom: Some(seq![c]), last: TokenKind::Atom, ..st })
    }
}

pub open spec fn initial_state() -> BuildState {
    BuildState { frames: seq![empty_frame()], last: TokenKind::Nothing, openness: 0, atom: None }
}

/// The state after reading the first `i` characters.
pub open spec fn be_state(s: Seq<char>, i: int) -> Result<BuildState, Seq<char>>
    decreases i,
{
    if i <= 0 {
        Ok(initial_state())
    } else {
        match be_state(s, i - 1) {
            Err(m) => Err(m),
            Ok(st) => be_step(st, s, i - 1),
        }
    }
}

/// Once reading fails, it stays failed.
pub proof fn lemma_be_error_persists(s: Seq<char>, i: int, j: int, m: Seq<char>)
    requires
        0 < i <= j,
        be_state(s, i) == Err::<BuildState, Seq<char>>(m),
    ensures
        be_state(s, j) == Err::<BuildState, Seq<char>>(m),
    decreases j - i,
{
    if i < j {
        lemma_be_error_persists(s, i, j - 1, m);
    }
}

/// The expression of the open nodes, each closed into the one before.
pub open spec fn close_all(frames: Seq<FrameView>) -> Result<Option<ExprView>, Seq<char>>
    decreases frames.len(),
{
    if frames.len() == 0 {
        Ok(None)
    } else if frames.len() == 1 {
        close_frame(frames[0])
    } else {
        match close_frame(frames.last()) {
            Err(m) => Err(m),
            Ok(e) => {
                let rest = frames.drop_last();
                close_all(rest.update(rest.len() - 1, attach(rest.last(), e)))
            },
        }
    }
}

pub open spec fn spec_be(s: Seq<char>) -> StrFilterResult {
    match be_state(s, s.len() as int) {
        Err(m) => Err(Some(m)),
        Ok(st) => match close_all(flush(st).frames) {
            Err(m) => Err(Some(m)),
            Ok(None) => Ok(None),
            Ok(Some(e)) => if all_compile(e) {
                Ok(Some(e))
            } else {
                Err(None)
            },
        },
    }
}

/// A node of the expression being read.
struct Frame {
    op: Option<BoolOperator>,
    unary: bool,
    left: Option<RawExpr>,
    right: Option<RawExpr>,
}

pub open spec fn raw_opt_view(e: Option<RawExpr>) -> Option<ExprView> {
    match e {
        Some(x) => Some(x@),
        None => None,
    }
}

impl View for Frame {
    type V = FrameView;

    closed spec fn view(&self) -> FrameView {
        FrameView { op: self.op, unary: self.unary, left: raw_opt_view(self.left), right: raw_opt_view(self.right) }
    }
}

/// The state of the reading of an expression.
struct Builder {
    frames: Vec<Frame>,
    last: TokenKind,
    openness: usize,
    atom: Option<Vec<char>>,
}

impl View for Builder {
    type V = BuildState;

    closed spec fn view(&self) -> BuildState {
        BuildState {
            frames: self.frames@.map_values(|f: Frame| f@),
            last: self.last,
            openness: self.openness as nat,
            atom: match self.atom {
                Some(a) => Some(a@),
                None => None,
            },
        }
    }
}

fn close_frame_exec(f: Frame) -> (r: Result<Option<RawExpr>, String>)
    ensures
        match r {
            Ok(e) => close_frame(f@) == Ok::<Option<ExprView>, Seq<char>>(raw_opt_view(e)),
            Err(m) => close_frame(f@) == Err::<Option<ExprView>, Seq<char>>(m@),
        },
{
    match f.op {
        None => Ok(f.left),
        Some(op) => if f.unary {
            match f.left {
                Some(a) => Ok(Some(RawExpr::Not(Box::new(a)))),
                None => Err(string_of(chars_of("unexpected end").as_slice())),
            }
        } else {
            match (f.left, f.right) {
                (Some(a), Some(b)) => Ok(Some(
                    if op == BoolOperator::Or {
                        RawExpr::Or(Box::new(a), Box::new(b))
                    } else {
                        RawExpr::And(Box::new(a), Box::new(b))
                    },
                )),
                _ => Err(string_of(chars_of("unexpected end").as_slice())),
            }
        },
    }
}

fn attach_exec(f: Frame, e: Option<RawExpr>) -> (r: Frame)
    ensures
        r@ == attach(f@, raw_opt_view(e)),
{
    match e {
        None => f,
        Some(x) => if f.left.is_none() {
            Frame { left: Some(x), ..f }
        } else {
            Frame { right: Some(x), ..f }
        },
    }
}

fn message(s: &str) -> (r: String)
    ensures
        r@ == s@,
{
    string_of(chars_of(s).as_slice())
}

impl Builder {
    spec fn wf(&self) -> bool {
        &&& self.frames.len() >= 1
        &&& self.openness + 1 <= self.frames.len()
        &&& (self.atom is Some ==> self.last == TokenKind::Atom)
    }

    fn new() -> (r: Builder)
        ensures
            r.wf(),
            r@ == initial_state(),
    {
        let mut frames: Vec<Frame> = Vec::new();
        frames.push(Frame { op: None, unary: false, left: None, right: None });
        let r = Builder { frames, last: TokenKind::Nothing, openness: 0, atom: None };
        assert(r@.frames =~= seq![empty_frame()]);
        r
    }

    fn flush(&mut self)
        requires
            old(self).wf(),
        ensures
            final(self).wf(),
            final(self)@ == flush(old(self)@),
            final(self).atom is None,
    {
        let atom = self.atom.take();
        match atom {
            None => {},
            Some(a) => {
                let f = self.frames.pop().unwrap();
                let ghost fv = f@;
                let f2 = attach_exec(f, Some(RawExpr::Atom(a)));
                self.frames.push(f2);
                assert(self@.frames =~= flush(old(self)@).frames);
            },
        }
    }

    fn push_binary(&mut self, op: BoolOperator) -> (r: Result<(), String>)
        requires
            old(self).wf(),
            old(self).atom is None,
        ensures
            r is Ok ==> final(self).wf(),
            match r {
                Ok(()) => push_binary(old(self)@, op) == Ok::<BuildState, Seq<char>>(final(self)@),
                Err(m) => push_binary(old(self)@, op) == Err::<BuildState, Seq<char>>(m@),
            },
    {
        let f = self.frames.pop().unwrap();
        let ghost fv = f@;
        let full = if f.unary { f.left.is_some() } else { f.right.is_some() };
        if !full {
            self.frames.push(Frame { op: Some(op), ..f });
            self.last = TokenKind::Operator;
            assert(self@.frames =~= old(self)@.frames.update(old(self)@.frames.len() - 1, FrameView { op: Some(op), ..fv }));
            Ok(())
        } else {
            match close_frame_exec(f) {
                Err(m) => Err(m),
                Ok(e) => {
                    self.frames.push(Frame { op: Some(op), unary: false, left: e, right: None });
                    self.last = TokenKind::Operator;
                    assert(self@.frames =~= old(self)@.frames.drop_last().push(
                        FrameView { op: Some(op), unary: false, left: raw_opt_view(e), right: None },
                    ));
                    Ok(())
                },
            }
        }
    }

    /// Reads the character at `i`.
    fn step(&mut self, c: &Vec<char>, i: usize) -> (r: Result<(), String>)
        requires
            old(self).wf(),
            i < c.len(),
        ensures
            r is Ok ==> final(self).wf(),
            match r {
                Ok(()) => be_step(old(self)@, c@, i as int) == Ok::<BuildState, Seq<char>>(final(self)@),
                Err(m) => be_step(old(self)@, c@, i as int) == Err::<BuildState, Seq<char>>(m@),
            },
    {
        let ch = c[i];
        let space_after = i + 1 < c.len() && c[i + 1] == ' ';
        let space_before = i > 0 && c[i - 1] == ' ';
        let opens = self.last == TokenKind::Nothing || self.last == TokenKind::Operator || self.last == TokenKind::OpeningPar;
        let closes = self.last == TokenKind::Atom || self.last == TokenKind::ClosingPar;
        if ch == '(' && space_after {
            if opens {
                self.frames.push(Frame { op: None, unary: false, left: None, right: None });
                self.last = TokenKind::OpeningPar;
                self.openness = self.openness + 1;
                assert(self@.frames =~= old(self)@.frames.push(empty_frame()));
                Ok(())
            } else {
                Err(message("unexpected opening parenthesis"))
            }
        } else if ch == ')' && space_before {
            if closes && self.openness > 0 && self.frames.len() >= 2 {
                self.flush();
                let ghost fl = self@;
                let f = self.frames.pop().unwrap();
                match close_frame_exec(f) {
                    Err(m) => Err(m),
                    Ok(e) => {
                        let g = self.frames.pop().unwrap();
                        self.frames.push(attach_exec(g, e));
                        self.last = TokenKind::ClosingPar;
                        self.openness = self.openness - 1;
                        proof {
                            let rest = fl.frames.drop_last();
                            assert(self@.frames =~= rest.update(rest.len() - 1, attach(rest.last(), raw_opt_view(e))));
                        }
                        Ok(())
                    },
                }
            } else {
                Err(message("unexpected closing parenthesis"))
            }
        } else if ch == '&' && space_after {
            if closes {
                self.flush();
                self.push_binary(BoolOperator::And)
            } else {
                Err(message("unexpected '&'"))
            }
        } else if ch == '|' && space_after {
            if closes {
                self.flush();
                self.push_binary(BoolOperator::Or)
            } else {
                Err(message("unexpected '|'"))
            }
        } else if ch == '!' && opens {
            self.frames.push(Frame { op: Some(BoolOperator::Not), unary: true, left: None, right: None });
            self.last = TokenKind::Operator;
            assert(self@.frames =~= old(self)@.frames.push(
                FrameView { op: Some(BoolOperator::Not), unary: true, left: None, right: None },
            ));
            Ok(())
        } else if ch == ' ' {
            Ok(())
        } else if self.last == TokenKind::Atom {
            let mut a = match self.atom.take() {
                Some(a) => a,
                None => Vec::new(),
            };
            a.push(ch);
            self.atom = Some(a);
            Ok(())
        } else if self.last == TokenKind::ClosingPar {
            Err(message("unexpected atom"))
        } else {
            let mut a: Vec<char> = Vec::new();
            a.push(ch);
            assert(a@ =~= seq![ch]);
            self.atom = Some(a);
            self.last = TokenKind::Atom;
            Ok(())
        }
    }

    /// Closes every open node; the expression, if the pattern had any.
    fn finish(self) -> (r: Result<Option<RawExpr>, String>)
        requires
            self.wf(),
        ensures
            match r {
                Ok(e) => close_all(flush(self@).frames) == Ok::<Option<ExprView>, Seq<char>>(raw_opt_view(e)),
                Err(m) => close_all(flush(self@).frames) == Err::<Option<ExprView>, Seq<char>>(m@),
            },
    {
        let mut b = self;
        b.flush();
        let mut frames = b.frames;
        while frames.len() > 1
            invariant
                frames.len() >= 1,
                close_all(flush(self@).frames) == close_all(frames@.map_values(|f: Frame| f@)),
            decreases frames.len(),
        {
            let ghost fs = frames@.map_values(|f: Frame| f@);
            let f = frames.pop().unwrap();
            match close_frame_exec(f) {
                Err(m) => return Err(m),
                Ok(e) => {
                    let g = frames.pop().unwrap();
                    frames.push(attach_exec(g, e));
                    proof {
                        let rest = fs.drop_last();
                        assert(frames@.map_values(|f: Frame| f@) =~= rest.update(rest.len() - 1, attach(rest.last(), raw_opt_view(e))));
                    }
                },
            }
        }
        let ghost fs = frames@.map_values(|f: Frame| f@);
        let f = frames.pop().unwrap();
        assert(fs.len() == 1 && fs[0] == f@);
        close_frame_exec(f)
    }
}

} // verus!
