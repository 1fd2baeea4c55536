//! Quizzes and the line-oriented quiz file parser.
//!
//! The file format has one directive per line, after trimming surrounding
//! white space: `# title`, `? question`, `- wrong option`, `* correct
//! option`; blank lines and lines starting with `//` are ignored.  The
//! parser either returns a validated quiz or the complete list of problems,
//! each at its 1-based line number.

use vstd::prelude::*;
use vstd::string::StringExecFns;

use crate::errors::{ParseError, ParseErrorView};
use crate::text::{
    chars_of, lemma_split_lines_cat, lemma_split_lines_no_newline_lines,
    lemma_strip_leading_no_newline, lemma_trim_fixed_ends, lemma_trim_idempotent,
    lemma_trim_no_newline, no_newline, split_lines, split_lines_spec, spec_digits,
    string_from_chars, strip_leading_chars, strip_leading_spec, tail_chars, trim_chars,
    trim_spec, trim_start_spec, trim_end_spec, u64_to_string,
};

verus! {

/// One selectable answer of a question.
#[derive(Debug, Clone)]
pub struct QuizOption {
    pub text: String,
}

/// A question: its text, 2–4 options, which option is correct, and the time
/// budget for answering.
#[derive(Debug, Clone)]
pub struct Question {
    pub text: String,
    pub options: Vec<QuizOption>,
    pub correct_index: usize,
    pub time_limit_sec: u64,
}

/// A parsed quiz, immutable once built.
#[derive(Debug, Clone)]
pub struct Quiz {
    pub title: String,
    pub questions: Vec<Question>,
}

impl View for QuizOption {
    type V = Seq<char>;

    open spec fn view(&self) -> Seq<char> {
        self.text@
    }
}

impl DeepView for QuizOption {
    type V = Seq<char>;

    open spec fn deep_view(&self) -> Seq<char> {
        self.text@
    }
}

/// Mathematical view of a [`Question`].
#[verifier::ext_equal]
pub struct QuestionView {
    pub text: Seq<char>,
    pub options: Seq<Seq<char>>,
    pub correct_index: int,
    pub time_limit_sec: u64,
}

impl View for Question {
    type V = QuestionView;

    open spec fn view(&self) -> QuestionView {
        QuestionView {
            text: self.text@,
            options: self.options.deep_view(),
            correct_index: self.correct_index as int,
            time_limit_sec: self.time_limit_sec,
        }
    }
}

impl DeepView for Question {
    type V = QuestionView;

    open spec fn deep_view(&self) -> QuestionView {
        self.view()
    }
}

/// Mathematical view of a [`Quiz`].
#[verifier::ext_equal]
pub struct QuizView {
    pub title: Seq<char>,
    pub questions: Seq<QuestionView>,
}

impl View for Quiz {
    type V = QuizView;

    open spec fn view(&self) -> QuizView {
        QuizView { title: self.title@, questions: self.questions.deep_view() }
    }
}

impl QuestionView {
    /// Structural validity of a question: 2–4 options, a correct index that
    /// designates one of them, and a positive time limit.
    pub open spec fn wf(self) -> bool {
        &&& 2 <= self.options.len() <= 4
        &&& 0 <= self.correct_index < self.options.len()
        &&& self.time_limit_sec >= 1
    }
}

impl QuizView {
    /// Structural validity of a quiz: a non-empty title and at least one
    /// well-formed question.
    pub open spec fn wf(self) -> bool {
        &&& self.title.len() > 0
        &&& self.questions.len() >= 1
        &&& forall|i: int| 0 <= i < self.questions.len() ==> (#[trigger] self.questions[i]).wf()
    }
}

// ------------------------------------------------------------------
// Error messages
// ------------------------------------------------------------------
pub open spec fn msg_no_correct() -> Seq<char> {
    "Question has no correct answer (no line starting with *)"@
}

pub open spec fn msg_multiple_correct() -> Seq<char> {
    "Question has multiple correct answers (only one * allowed)"@
}

pub open spec fn msg_too_few(n: nat) -> Seq<char> {
    "Question has "@ + spec_digits(n) + " option(s), minimum is 2"@
}

pub open spec fn msg_too_many(n: nat) -> Seq<char> {
    "Question has "@ + spec_digits(n) + " options, maximum is 4"@
}

pub open spec fn msg_empty_option() -> Seq<char> {
    "Option text is empty"@
}

pub open spec fn msg_orphan_option() -> Seq<char> {
    "Option found before any question"@
}

pub open spec fn msg_unrecognized() -> Seq<char> {
    "Unrecognized line format: expected #, ?, -, *, or //"@
}

pub open spec fn msg_no_title() -> Seq<char> {
    "Quiz has no title (expected a line starting with #)"@
}

pub open spec fn msg_no_questions() -> Seq<char> {
    "Quiz has no valid questions"@
}

// ------------------------------------------------------------------
// The parser, as a mathematical function
// ------------------------------------------------------------------
/// What a single line of the file directs the parser to do.
pub enum LineKind {
    /// Blank line or `//` comment.
    Ignored,
    /// `# …`: the quiz title.
    Title(Seq<char>),
    /// `? …`: begins a new question.
    Quest(Seq<char>),
    /// `- …` or `* …`: an option, with whether it is the correct one.
    Opt(Seq<char>, bool),
    /// Anything else.
    Unrecognized,
}

/// Classification of one raw line.
pub open spec fn classify_line(line: Seq<char>) -> LineKind {
    let t = trim_spec(line);
    if t.len() == 0 {
        LineKind::Ignored
    } else if t.len() >= 2 && t[0] == '/' && t[1] == '/' {
        LineKind::Ignored
    } else if t[0] == '#' {
        LineKind::Title(trim_spec(strip_leading_spec(t, '#')))
    } else if t[0] == '?' {
        LineKind::Quest(trim_spec(strip_leading_spec(t, '?')))
    } else if t[0] == '-' {
        LineKind::Opt(trim_spec(t.drop_first()), false)
    } else if t[0] == '*' {
        LineKind::Opt(trim_spec(t.drop_first()), true)
    } else {
        LineKind::Unrecognized
    }
}

/// A question still being collected: its text, the line of its `?`
/// directive, and the options seen so far with their correctness marks.
#[verifier::ext_equal]
pub struct PendingQuestion {
    pub text: Seq<char>,
    pub start_line: int,
    pub opts: Seq<(Seq<char>, bool)>,
}

/// The parser's running state.
#[verifier::ext_equal]
pub struct ParseState {
    pub title: Seq<char>,
    pub cur: Option<PendingQuestion>,
    pub questions: Seq<QuestionView>,
    pub errors: Seq<ParseErrorView>,
}

/// How many options of `opts` are marked correct.
pub open spec fn count_correct(opts: Seq<(Seq<char>, bool)>) -> int
    decreases opts.len(),
{
    if opts.len() == 0 {
        0
    } else {
        count_correct(opts.drop_last()) + if opts.last().1 {
            1int
        } else {
            0int
        }
    }
}

/// Index of the first option of `opts` marked correct (`opts.len()` when
/// none is).
pub open spec fn first_correct(opts: Seq<(Seq<char>, bool)>) -> int
    decreases opts.len(),
{
    if opts.len() == 0 {
        0
    } else if opts[0].1 {
        0
    } else {
        1 + first_correct(opts.drop_first())
    }
}

/// Validate a collected question and either add it to the output or record
/// why it is rejected, against the line of its `?` directive.
pub open spec fn finalize_spec(
    questions: Seq<QuestionView>,
    errors: Seq<ParseErrorView>,
    q: PendingQuestion,
    default_time: u64,
) -> (Seq<QuestionView>, Seq<ParseErrorView>) {
    let cc = count_correct(q.opts);
    let e1 = if cc == 0 {
        errors.push(ParseErrorView { line: q.start_line, message: msg_no_correct() })
    } else if cc > 1 {
        errors.push(ParseErrorView { line: q.start_line, message: msg_multiple_correct() })
    } else {
        errors
    };
    let e2 = if q.opts.len() < 2 {
        e1.push(ParseErrorView { line: q.start_line, message: msg_too_few(q.opts.len()) })
    } else {
        e1
    };
    let e3 = if q.opts.len() > 4 {
        e2.push(ParseErrorView { line: q.start_line, message: msg_too_many(q.opts.len()) })
    } else {
        e2
    };
    let qs = if cc == 1 && 2 <= q.opts.len() && q.opts.len() <= 4 {
        questions.push(
            QuestionView {
                text: q.text,
                options: q.opts.map_values(|o: (Seq<char>, bool)| o.0),
                correct_index: first_correct(q.opts),
                time_limit_sec: default_time,
            },
        )
    } else {
        questions
    };
    (qs, e3)
}

/// One parser step: consume `line` (the 1-based line `line_no`).
pub open spec fn step_spec(st: ParseState, line: Seq<char>, line_no: int, default_time: u64) -> ParseState {
    match classify_line(line) {
        LineKind::Ignored => st,
        LineKind::Title(t) => {
            if st.title.len() == 0 {
                ParseState { title: t, ..st }
            } else {
                st
            }
        },
        LineKind::Quest(t) => {
            let qe = if st.cur is Some {
                finalize_spec(st.questions, st.errors, st.cur->0, default_time)
            } else {
                (st.questions, st.errors)
            };
            ParseState {
                cur: Some(PendingQuestion { text: t, start_line: line_no, opts: Seq::empty() }),
                questions: qe.0,
                errors: qe.1,
                ..st
            }
        },
        LineKind::Opt(t, correct) => {
            if t.len() == 0 {
                ParseState {
                    errors: st.errors.push(
                        ParseErrorView { line: line_no, message: msg_empty_option() },
                    ),
                    ..st
                }
            } else if st.cur is Some {
                let q = st.cur->0;
                ParseState {
                    cur: Some(PendingQuestion { opts: q.opts.push((t, correct)), ..q }),
                    ..st
                }
            } else {
                ParseState {
                    errors: st.errors.push(
                        ParseErrorView { line: line_no, message: msg_orphan_option() },
                    ),
                    ..st
                }
            }
        },
        LineKind::Unrecognized => ParseState {
            errors: st.errors.push(ParseErrorView { line: line_no, message: msg_unrecognized() }),
            ..st
        },
    }
}

/// Run the parser over `lines`, the first of which is line `line_no`.
pub open spec fn fold_lines_spec(
    st: ParseState,
    lines: Seq<Seq<char>>,
    line_no: int,
    default_time: u64,
) -> ParseState
    decreases lines.len(),
{
    if lines.len() == 0 {
        st
    } else {
        fold_lines_spec(
            step_spec(st, lines[0], line_no, default_time),
            lines.drop_first(),
            line_no + 1,
            default_time,
        )
    }
}

/// The state the parser starts from.
pub open spec fn init_state() -> ParseState {
    ParseState {
        title: Seq::empty(),
        cur: None,
        questions: Seq::empty(),
        errors: Seq::empty(),
    }
}

/// The parser's final state on `content`: every line consumed, the last
/// question finalized, and the global checks applied.
pub open spec fn parse_outcome(content: Seq<char>, default_time: u64) -> ParseState {
    let st = fold_lines_spec(init_state(), split_lines_spec(content), 1, default_time);
    let st1 = if st.cur is Some {
        let qe = finalize_spec(st.questions, st.errors, st.cur->0, default_time);
        ParseState { cur: None, questions: qe.0, errors: qe.1, ..st }
    } else {
        st
    };
    let st2 = if st1.title.len() == 0 {
        ParseState {
            errors: st1.errors.push(ParseErrorView { line: 1, message: msg_no_title() }),
            ..st1
        }
    } else {
        st1
    };
    if st2.questions.len() == 0 && st2.errors.len() == 0 {
        ParseState {
            errors: st2.errors.push(ParseErrorView { line: 1, message: msg_no_questions() }),
            ..st2
        }
    } else {
        st2
    }
}

/// What parsing `content` returns: the quiz when no problem was found, and
/// the full list of problems otherwise.
pub open spec fn spec_parse_quiz(content: Seq<char>, default_time: u64) -> Result<
    QuizView,
    Seq<ParseErrorView>,
> {
    let st = parse_outcome(content, default_time);
    if st.errors.len() == 0 {
        Ok(QuizView { title: st.title, questions: st.questions })
    } else {
        Err(st.errors)
    }
}

// ------------------------------------------------------------------
// The parser, executable
// ------------------------------------------------------------------
/// The view of a run of collected option entries.
pub open spec fn opts_view(s: Seq<(String, bool)>) -> Seq<(Seq<char>, bool)> {
    s.map_values(|p: (String, bool)| (p.0@, p.1))
}

/// If `s[i]` is the first correct option, `first_correct` finds it.
pub proof fn lemma_first_correct_at(s: Seq<(Seq<char>, bool)>, i: int)
    requires
        0 <= i < s.len(),
        s[i].1,
        forall|k: int| 0 <= k < i ==> !(#[trigger] s[k]).1,
    ensures
        first_correct(s) == i,
    decreases i,
{
    if i > 0 {
        assert(!s[0].1);
        lemma_first_correct_at(s.drop_first(), i - 1);
    }
}

/// Validate one collected question against the output and error lists, as
/// [`finalize_spec`] describes.
#[verifier::loop_isolation(false)]
fn finalize_question(
    questions: &mut Vec<Question>,
    errors: &mut Vec<ParseError>,
    text: &String,
    opts: &Vec<(String, bool)>,
    start_line: usize,
    default_time: u64,
)
    ensures
        ({
            let qe = finalize_spec(
                old(questions).deep_view(),
                old(errors).deep_view(),
                PendingQuestion {
                    text: text@,
                    start_line: start_line as int,
                    opts: opts_view(opts@),
                },
                default_time,
            );
            final(questions).deep_view() =~~= qe.0 && final(errors).deep_view() =~~= qe.1
        }),
{
    let ghost ov = opts_view(opts@);
    let mut cc: usize = 0;
    let mut found: bool = false;
    let mut fi: usize = 0;
    let mut i: usize = 0;
    proof {
        assert(ov.take(0) =~= Seq::<(Seq<char>, bool)>::empty());
    }
    while i < opts.len()
        invariant
            0 <= i <= opts@.len(),
            cc == count_correct(ov.take(i as int)),
            cc <= i,
            found <==> cc > 0,
            found ==> 0 <= fi < i && ov[fi as int].1 && (forall|k: int|
                0 <= k < fi ==> !(#[trigger] ov[k]).1),
            !found ==> forall|k: int| 0 <= k < i ==> !(#[trigger] ov[k]).1,
        decreases opts@.len() - i,
    {
        proof {
            assert(ov.take(i as int + 1).drop_last() =~= ov.take(i as int));
            assert(ov.take(i as int + 1).last() == ov[i as int]);
        }
        if opts[i].1 {
            if !found {
                found = true;
                fi = i;
            }
            cc = cc + 1;
        }
        i = i + 1;
    }
    proof {
        assert(ov.take(opts@.len() as int) =~= ov);
    }
    let n = opts.len();
    if cc == 0 {
        let m = ("Question has no correct answer (no line starting with *)").to_owned();
        let ghost before = errors.deep_view();
        errors.push(ParseError { line: start_line, message: m });
        proof {
            assert(errors.deep_view() =~~= before.push(
                ParseErrorView { line: start_line as int, message: msg_no_correct() },
            ));
        }
    } else if cc > 1 {
        let m = ("Question has multiple correct answers (only one * allowed)").to_owned();
        let ghost before = errors.deep_view();
        errors.push(ParseError { line: start_line, message: m });
        proof {
            assert(errors.deep_view() =~~= before.push(
                ParseErrorView { line: start_line as int, message: msg_multiple_correct() },
            ));
        }
    }
    if n < 2 {
        let mut m = ("Question has ").to_owned();
        let num = u64_to_string(n as u64);
        m.append(num.as_str());
        m.append(" option(s), minimum is 2");
        let ghost before = errors.deep_view();
        proof {
            assert(m@ =~= msg_too_few(n as nat));
        }
        errors.push(ParseError { line: start_line, message: m });
        proof {
            assert(errors.deep_view() =~~= before.push(
                ParseErrorView { line: start_line as int, message: msg_too_few(n as nat) },
            ));
        }
    }
    if n > 4 {
        let mut m = ("Question has ").to_owned();
        let num = u64_to_string(n as u64);
        m.append(num.as_str());
        m.append(" options, maximum is 4");
        let ghost before = errors.deep_view();
        proof {
            assert(m@ =~= msg_too_many(n as nat));
        }
        errors.push(ParseError { line: start_line, message: m });
        proof {
            assert(errors.deep_view() =~~= before.push(
                ParseErrorView { line: start_line as int, message: msg_too_many(n as nat) },
            ));
        }
    }
    if cc == 1 && n >= 2 && n <= 4 {
        let mut options: Vec<QuizOption> = Vec::new();
        let mut k: usize = 0;
        while k < opts.len()
            invariant
                0 <= k <= opts@.len(),
                options.deep_view() =~~= ov.map_values(|o: (Seq<char>, bool)| o.0).take(k as int),
            decreases opts@.len() - k,
        {
            let pair = &opts[k];
            options.push(QuizOption { text: pair.0.clone() });
            k = k + 1;
        }
        proof {
            assert(options.deep_view() =~~= ov.map_values(|o: (Seq<char>, bool)| o.0));
            lemma_first_correct_at(ov, fi as int);
        }
        let ghost before = questions.deep_view();
        questions.push(
            Question { text: text.clone(), options, correct_index: fi, time_limit_sec: default_time },
        );
        proof {
            assert(questions.deep_view() =~~= before.push(
                QuestionView {
                    text: text@,
                    options: ov.map_values(|o: (Seq<char>, bool)| o.0),
                    correct_index: first_correct(ov),
                    time_limit_sec: default_time,
                },
            ));
        }
    }
}

/// Parse a quiz from the line-based text format.
///
/// Returns the quiz exactly when the text holds a title and only valid
/// questions; otherwise returns every problem found, each at its 1-based
/// line number — as [`spec_parse_quiz`] states precisely.
#[verifier::loop_isolation(false)]
#[verifier::rlimit(60)]
pub fn parse_quiz(content: &str, default_time_limit: u64) -> (r: Result<Quiz, Vec<ParseError>>)
    ensures
        ({
            let sp = spec_parse_quiz(content@, default_time_limit);
            match r {
                Ok(q) => sp is Ok && q@ =~~= sp->Ok_0,
                Err(es) => sp is Err && es.deep_view() =~~= sp->Err_0,
            }
        }),
{
    let cs = chars_of(content);
    let lines = split_lines(&cs);
    let ghost lv = split_lines_spec(content@);

    let mut title: String = String::new();
    let mut questions: Vec<Question> = Vec::new();
    let mut errors: Vec<ParseError> = Vec::new();
    let mut has_cur: bool = false;
    let mut cur_text: String = String::new();
    let mut cur_opts: Vec<(String, bool)> = Vec::new();
    let mut cur_line: usize = 0;

    let mut i: usize = 0;
    proof {
        assert(lv.skip(0) =~= lv);
        assert(lines.deep_view().len() == lv.len());
        assert(ParseState {
            title: title@,
            cur: None,
            questions: questions.deep_view(),
            errors: errors.deep_view(),
        } =~~= init_state());
    }
    while i < lines.len()
        invariant
            0 <= i <= lines@.len(),
            lines.deep_view() =~~= lv,
            fold_lines_spec(init_state(), lv, 1, default_time_limit) =~~= fold_lines_spec(
                ParseState {
                    title: title@,
                    cur: if has_cur {
                        Some(
                            PendingQuestion {
                                text: cur_text@,
                                start_line: cur_line as int,
                                opts: opts_view(cur_opts@),
                            },
                        )
                    } else {
                        None
                    },
                    questions: questions.deep_view(),
                    errors: errors.deep_view(),
                },
                lv.skip(i as int),
                i as int + 1,
                default_time_limit,
            ),
        decreases lines@.len() - i,
    {
        let ghost st0 = ParseState {
            title: title@,
            cur: if has_cur {
                Some(
                    PendingQuestion {
                        text: cur_text@,
                        start_line: cur_line as int,
                        opts: opts_view(cur_opts@),
                    },
                )
            } else {
                None
            },
            questions: questions.deep_view(),
            errors: errors.deep_view(),
        };
        proof {
            assert(lv.skip(i as int)[0] == lines.deep_view()[i as int]);
            assert(lv.skip(i as int).drop_first() =~= lv.skip(i as int + 1));
        }
        let line = &lines[i];
        let ghost lnv = line@;
        let t = trim_chars(line);
        if t.len() == 0 {
            proof {
                assert(classify_line(lnv) is Ignored);
            }
        } else if t.len() >= 2 && t[0] == '/' && t[1] == '/' {
            proof {
                assert(classify_line(lnv) is Ignored);
            }
        } else if t[0] == '#' {
            let ghost tt = trim_spec(strip_leading_spec(t@, '#'));
            proof {
                assert(classify_line(lnv) == LineKind::Title(tt));
            }
            if title.as_str().is_empty() {
                let stripped = strip_leading_chars(&t, '#');
                let tv = trim_chars(&stripped);
                title = string_from_chars(&tv);
            }
        } else if t[0] == '?' {
            let ghost tt = trim_spec(strip_leading_spec(t@, '?'));
            proof {
                assert(classify_line(lnv) == LineKind::Quest(tt));
            }
            if has_cur {
                finalize_question(
                    &mut questions,
                    &mut errors,
                    &cur_text,
                    &cur_opts,
                    cur_line,
                    default_time_limit,
                );
            }
            let stripped = strip_leading_chars(&t, '?');
            let tv = trim_chars(&stripped);
            cur_text = string_from_chars(&tv);
            cur_opts = Vec::new();
            cur_line = i + 1;
            has_cur = true;
            proof {
                assert(opts_view(cur_opts@) =~= Seq::<(Seq<char>, bool)>::empty());
            }
        } else if t[0] == '-' || t[0] == '*' {
            let correct = t[0] == '*';
            let rest = tail_chars(&t);
            let txt = trim_chars(&rest);
            let ghost tt = trim_spec(t@.drop_first());
            proof {
                assert(classify_line(lnv) == LineKind::Opt(tt, correct));
                assert(txt@ == tt);
            }
            if txt.len() == 0 {
                let m = ("Option text is empty").to_owned();
                let ghost before = errors.deep_view();
                errors.push(ParseError { line: i + 1, message: m });
                proof {
                    assert(errors.deep_view() =~~= before.push(
                        ParseErrorView { line: i as int + 1, message: msg_empty_option() },
                    ));
                }
            } else if has_cur {
                let ghost before = opts_view(cur_opts@);
                let sx = string_from_chars(&txt);
                cur_opts.push((sx, correct));
                proof {
                    assert(opts_view(cur_opts@) =~~= before.push((tt, correct)));
                }
            } else {
                let m = ("Option found before any question").to_owned();
                let ghost before = errors.deep_view();
                errors.push(ParseError { line: i + 1, message: m });
                proof {
                    assert(errors.deep_view() =~~= before.push(
                        ParseErrorView { line: i as int + 1, message: msg_orphan_option() },
                    ));
                }
            }
        } else {
            proof {
                assert(classify_line(lnv) is Unrecognized);
            }
            let m = ("Unrecognized line format: expected #, ?, -, *, or //").to_owned();
            let ghost before = errors.deep_view();
            errors.push(ParseError { line: i + 1, message: m });
            proof {
                assert(errors.deep_view() =~~= before.push(
                    ParseErrorView { line: i as int + 1, message: msg_unrecognized() },
                ));
            }
        }
        proof {
            let st1 = ParseState {
                title: title@,
                cur: if has_cur {
                    Some(
                        PendingQuestion {
                            text: cur_text@,
                            start_line: cur_line as int,
                            opts: opts_view(cur_opts@),
                        },
                    )
                } else {
                    None
                },
                questions: questions.deep_view(),
                errors: errors.deep_view(),
            };
            assert(st1 =~~= step_spec(st0, lnv, i as int + 1, default_time_limit));
            assert(lnv =~= lv.skip(i as int)[0]);
            assert(fold_lines_spec(st0, lv.skip(i as int), i as int + 1, default_time_limit)
                == fold_lines_spec(
                st1,
                lv.skip(i as int + 1),
                i as int + 2,
                default_time_limit,
            )) by {
                assert(lv.skip(i as int).len() > 0);
                assert(lv.skip(i as int).drop_first() =~= lv.skip(i as int + 1));
            }
        }
        i = i + 1;
    }
    proof {
        assert(lv.skip(i as int).len() == 0);
    }
    if has_cur {
        finalize_question(
            &mut questions,
            &mut errors,
            &cur_text,
            &cur_opts,
            cur_line,
            default_time_limit,
        );
    }
    if title.as_str().is_empty() {
        let m = ("Quiz has no title (expected a line starting with #)").to_owned();
        let ghost before = errors.deep_view();
        errors.push(ParseError { line: 1, message: m });
        proof {
            assert(errors.deep_view() =~~= before.push(
                ParseErrorView { line: 1, message: msg_no_title() },
            ));
        }
    }
    if questions.len() == 0 && errors.len() == 0 {
        let m = ("Quiz has no valid questions").to_owned();
        let ghost before = errors.deep_view();
        errors.push(ParseError { line: 1, message: m });
        proof {
            assert(errors.deep_view() =~~= before.push(
                ParseErrorView { line: 1, message: msg_no_questions() },
            ));
        }
    }
    if errors.len() == 0 {
        let q = Quiz { title, questions };
        proof {
            assert(q@ =~~= spec_parse_quiz(content@, default_time_limit)->Ok_0);
        }
        Ok(q)
    } else {
        proof {
            assert(errors.deep_view() =~~= spec_parse_quiz(content@, default_time_limit)->Err_0);
        }
        Err(errors)
    }
}

impl Quiz {
    /// Executable check of [`QuizView::wf`]: callers that receive a quiz
    /// from outside the library can test validity before using it.
    #[verifier::loop_isolation(false)]
    pub fn is_well_formed(&self) -> (r: bool)
        ensures
            r == self@.wf(),
    {
        if self.title.as_str().is_empty() {
            return false;
        }
        if self.questions.len() == 0 {
            return false;
        }
        let mut i: usize = 0;
        while i < self.questions.len()
            invariant
                0 <= i <= self.questions@.len(),
                forall|k: int| 0 <= k < i ==> (#[trigger] self.questions.deep_view()[k]).wf(),
            decreases self.questions@.len() - i,
        {
            let q = &self.questions[i];
            if q.options.len() < 2 || q.options.len() > 4 || q.correct_index >= q.options.len()
                || q.time_limit_sec < 1 {
                proof {
                    assert(self@.questions[i as int] == self.questions@[i as int].deep_view());
                    assert(!self@.questions[i as int].wf());
                }
                return false;
            }
            proof {
                assert(self@.questions[i as int] == self.questions@[i as int].deep_view());
                assert(self.questions.deep_view()[i as int].wf());
            }
            i = i + 1;
        }
        true
    }
}

/// A deep copy of `q`, field for field.
#[verifier::loop_isolation(false)]
pub fn clone_quiz(q: &Quiz) -> (r: Quiz)
    ensures
        r@ == q@,
{
    let mut questions: Vec<Question> = Vec::new();
    let mut i: usize = 0;
    while i < q.questions.len()
        invariant
            0 <= i <= q.questions@.len(),
            questions.deep_view() =~~= q.questions.deep_view().take(i as int),
        decreases q.questions@.len() - i,
    {
        let src = &q.questions[i];
        let mut options: Vec<QuizOption> = Vec::new();
        let mut k: usize = 0;
        while k < src.options.len()
            invariant
                0 <= k <= src.options@.len(),
                options.deep_view() =~~= src.options.deep_view().take(k as int),
            decreases src.options@.len() - k,
        {
            options.push(QuizOption { text: src.options[k].text.clone() });
            proof {
                assert(options.deep_view() =~~= src.options.deep_view().take(k as int + 1));
            }
            k = k + 1;
        }
        proof {
            assert(options.deep_view() =~~= src.options.deep_view());
        }
        questions.push(
            Question {
                text: src.text.clone(),
                options,
                correct_index: src.correct_index,
                time_limit_sec: src.time_limit_sec,
            },
        );
        proof {
            assert(questions.deep_view() =~~= q.questions.deep_view().take(i as int + 1));
        }
        i = i + 1;
    }
    proof {
        assert(questions.deep_view() =~~= q.questions.deep_view());
    }
    let r = Quiz { title: q.title.clone(), questions };
    proof {
        assert(r@ =~~= q@);
    }
    r
}

// ------------------------------------------------------------------
// Validation laws
// ------------------------------------------------------------------
/// The number of correct marks lies between 0 and the number of options.
pub proof fn lemma_count_correct_nonneg(opts: Seq<(Seq<char>, bool)>)
    ensures
        0 <= count_correct(opts) <= opts.len(),
    decreases opts.len(),
{
    if opts.len() > 0 {
        lemma_count_correct_nonneg(opts.drop_last());
    }
}

/// A title is mandatory: when no line of the file sets one, parsing
/// reports "no title" at line 1; and a file whose lines produce a title
/// but no valid question and no other problem reports "no valid
/// questions" at line 1.  Either way the file is rejected.
pub proof fn lemma_title_and_questions_required(content: Seq<char>, default_time: u64)
    ensures
        ({
            let st = parse_outcome(content, default_time);
            &&& st.title.len() == 0 ==> exists|i: int|
                0 <= i < st.errors.len() && (#[trigger] st.errors[i]).line == 1
                    && st.errors[i].message == msg_no_title()
            &&& st.questions.len() == 0 && st.errors.len() > 0 ==> spec_parse_quiz(
                content,
                default_time,
            ) is Err
            &&& st.title.len() > 0 && st.questions.len() == 0 ==> spec_parse_quiz(
                content,
                default_time,
            ) is Err
            &&& spec_parse_quiz(content, default_time) is Ok ==> st.title.len() > 0
                && st.questions.len() > 0
        }),
{
    let st0 = fold_lines_spec(init_state(), split_lines_spec(content), 1, default_time);
    let st1 = if st0.cur is Some {
        let qe = finalize_spec(st0.questions, st0.errors, st0.cur->0, default_time);
        ParseState { cur: None, questions: qe.0, errors: qe.1, ..st0 }
    } else {
        st0
    };
    let st = parse_outcome(content, default_time);
    if st1.title.len() == 0 {
        assert(st.errors[st1.errors.len() as int].line == 1);
    }
    if st1.title.len() > 0 && st.questions.len() == 0 {
        if st1.errors.len() == 0 {
            assert(st.errors.len() > 0);
        }
    }
}

// ------------------------------------------------------------------
// Rendering a quiz back to the file format
// ------------------------------------------------------------------
/// The rendered form of one option line: its marker, the text, a newline.
pub open spec fn render_option_spec(text: Seq<char>, correct: bool) -> Seq<char> {
    (if correct {
        "* "@
    } else {
        "- "@
    }) + text + "\n"@
}

/// The rendered option lines of a question, from option `k` on.
pub open spec fn render_options_spec(options: Seq<Seq<char>>, ci: int, k: int) -> Seq<char>
    decreases options.len() - k,
{
    if k < 0 || k >= options.len() {
        Seq::empty()
    } else {
        render_option_spec(options[k], k == ci) + render_options_spec(options, ci, k + 1)
    }
}

/// The rendered form of one question: its `?` line and its option lines.
pub open spec fn render_question_spec(q: QuestionView) -> Seq<char> {
    "? "@ + q.text + "\n"@ + render_options_spec(q.options, q.correct_index, 0)
}

/// The rendered questions of a quiz, from question `j` on.
pub open spec fn render_questions_spec(qs: Seq<QuestionView>, j: int) -> Seq<char>
    decreases qs.len() - j,
{
    if j < 0 || j >= qs.len() {
        Seq::empty()
    } else {
        render_question_spec(qs[j]) + render_questions_spec(qs, j + 1)
    }
}

/// The rendered form of a whole quiz: its `#` line and its questions.
pub open spec fn spec_render_quiz(q: QuizView) -> Seq<char> {
    "# "@ + q.title + "\n"@ + render_questions_spec(q.questions, 0)
}

/// A text that rendering reproduces exactly: already trimmed, and on one
/// line.
pub open spec fn text_clean(t: Seq<char>) -> bool {
    &&& trim_spec(t) == t
    &&& no_newline(t)
}

/// A quiz that the renderer can write down so that parsing reads the same
/// quiz back: a non-empty clean title, and 2–4 non-empty clean options per
/// question with a valid correct index — the shape of every quiz the
/// parser itself produces.
pub open spec fn question_renderable(qu: QuestionView) -> bool {
    &&& text_clean(qu.text)
    &&& 2 <= qu.options.len() <= 4
    &&& 0 <= qu.correct_index < qu.options.len()
    &&& forall|k: int|
        0 <= k < qu.options.len() ==> (#[trigger] qu.options[k]).len() > 0 && text_clean(
            qu.options[k],
        )
}

pub open spec fn renderable(q: QuizView) -> bool {
    &&& q.title.len() > 0 && text_clean(q.title)
    &&& q.questions.len() >= 1
    &&& forall|j: int| 0 <= j < q.questions.len() ==> question_renderable(#[trigger] q.questions[j])
}

/// Append the characters of `s` to `out`.
#[verifier::loop_isolation(false)]
fn push_str_chars(out: &mut Vec<char>, s: &str)
    ensures
        final(out)@ == old(out)@ + s@,
{
    let cs = chars_of(s);
    let mut i: usize = 0;
    while i < cs.len()
        invariant
            0 <= i <= cs@.len(),
            cs@ == s@,
            out@ =~= old(out)@ + s@.take(i as int),
        decreases cs@.len() - i,
    {
        out.push(cs[i]);
        i = i + 1;
    }
    proof {
        assert(out@ =~= old(out)@ + s@);
    }
}

/// Write `q` in the quiz file format: `# title`, then for each question a
/// `? text` line followed by one `- text` or `* text` line per option,
/// the correct one marked `*`.
#[verifier::loop_isolation(false)]
#[verifier::rlimit(60)]
pub fn render_quiz(q: &Quiz) -> (r: String)
    ensures
        r@ == spec_render_quiz(q@),
{
    let mut out: Vec<char> = Vec::new();
    proof {
        reveal_strlit("# ");
        reveal_strlit("\n");
        reveal_strlit("? ");
        reveal_strlit("* ");
        reveal_strlit("- ");
    }
    out.push('#');
    out.push(' ');
    push_str_chars(&mut out, q.title.as_str());
    out.push('\n');
    proof {
        assert(out@ =~= "# "@ + q@.title + "\n"@);
    }
    let ghost head = out@;
    let mut j: usize = 0;
    while j < q.questions.len()
        invariant
            0 <= j <= q.questions@.len(),
            out@ + render_questions_spec(q@.questions, j as int) =~= head
                + render_questions_spec(q@.questions, 0),
        decreases q.questions@.len() - j,
    {
        let ghost qbase = out@;
        let qu = &q.questions[j];
        out.push('?');
        out.push(' ');
        push_str_chars(&mut out, qu.text.as_str());
        out.push('\n');
        proof {
            assert(out@ =~= qbase + ("? "@ + qu@.text + "\n"@));
        }
        let ghost obase = out@;
        let mut k: usize = 0;
        while k < qu.options.len()
            invariant
                0 <= k <= qu.options@.len(),
                out@ + render_options_spec(qu@.options, qu@.correct_index, k as int) =~= obase
                    + render_options_spec(qu@.options, qu@.correct_index, 0),
            decreases qu.options@.len() - k,
        {
            let ghost kbase = out@;
            if k == qu.correct_index {
                out.push('*');
            } else {
                out.push('-');
            }
            out.push(' ');
            push_str_chars(&mut out, qu.options[k].text.as_str());
            out.push('\n');
            proof {
                assert(qu.options@[k as int]@ == qu@.options[k as int]);
                assert(out@ =~= kbase + render_option_spec(
                    qu@.options[k as int],
                    k as int == qu@.correct_index,
                ));
                assert(out@ + render_options_spec(qu@.options, qu@.correct_index, k as int + 1)
                    =~= kbase + render_options_spec(qu@.options, qu@.correct_index, k as int));
            }
            k = k + 1;
        }
        proof {
            assert(render_options_spec(qu@.options, qu@.correct_index, qu.options@.len() as int)
                =~= Seq::<char>::empty());
            assert(out@ =~= obase + render_options_spec(qu@.options, qu@.correct_index, 0));
            assert(q.questions@[j as int]@ == q.questions.deep_view()[j as int]);
            assert(out@ =~= qbase + render_question_spec(q.questions.deep_view()[j as int]));
            assert(out@ + render_questions_spec(q@.questions, j as int + 1) =~= qbase
                + render_questions_spec(q@.questions, j as int));
        }
        j = j + 1;
    }
    proof {
        assert(render_questions_spec(q@.questions, q.questions@.len() as int) =~= Seq::<
            char,
        >::empty());
        assert(out@ =~= head + render_questions_spec(q@.questions, 0));
        assert(out@ =~= spec_render_quiz(q@));
    }
    string_from_chars(&out)
}

// ------------------------------------------------------------------
// The round trip: parsing a rendered quiz reads the same quiz back
// ------------------------------------------------------------------
/// A rendered title line is classified as that title.
proof fn lemma_classify_title_line(t: Seq<char>)
    requires
        text_clean(t),
    ensures
        classify_line(seq!['#', ' '] + t) == LineKind::Title(t),
{
    let line = seq!['#', ' '] + t;
    assert(line[0] == '#');
    if t.len() > 0 {
        lemma_trim_fixed_ends(t);
        assert(line.last() == t.last());
        assert(trim_start_spec(line) == line);
        assert(trim_end_spec(line) == line);
        let tr = trim_spec(line);
        assert(tr == line);
        assert(tr.len() >= 3);
        assert(strip_leading_spec(line, '#') =~= seq![' '] + t) by {
            assert(strip_leading_spec(line, '#') == strip_leading_spec(line.drop_first(), '#'));
            assert(line.drop_first() =~= seq![' '] + t);
            assert((seq![' '] + t)[0] == ' ');
            assert(strip_leading_spec(seq![' '] + t, '#') == seq![' '] + t);
        }
        assert((seq![' '] + t).drop_first() =~= t);
        assert(trim_start_spec(seq![' '] + t) == trim_start_spec(t));
        assert(trim_spec(seq![' '] + t) == t);
    } else {
        assert(line =~= seq!['#', ' ']);
        assert(trim_start_spec(line) == line);
        assert(line.last() == ' ');
        assert(line.drop_last() =~= seq!['#']);
        assert(trim_end_spec(seq!['#']) =~= seq!['#']);
        let tr = trim_spec(line);
        assert(tr =~= seq!['#']);
        assert(strip_leading_spec(tr, '#') =~= Seq::<char>::empty()) by {
            assert(strip_leading_spec(tr, '#') == strip_leading_spec(tr.drop_first(), '#'));
            assert(tr.drop_first() =~= Seq::<char>::empty());
            assert(strip_leading_spec(Seq::<char>::empty(), '#') == Seq::<char>::empty());
        }
        assert(trim_spec(Seq::<char>::empty()) =~= Seq::<char>::empty());
        assert(t =~= Seq::<char>::empty());
    }
}

/// A rendered question line is classified as that question text.
proof fn lemma_classify_quest_line(t: Seq<char>)
    requires
        text_clean(t),
    ensures
        classify_line(seq!['?', ' '] + t) == LineKind::Quest(t),
{
    let line = seq!['?', ' '] + t;
    assert(line[0] == '?');
    if t.len() > 0 {
        lemma_trim_fixed_ends(t);
        assert(line.last() == t.last());
        assert(trim_start_spec(line) == line);
        assert(trim_end_spec(line) == line);
        let tr = trim_spec(line);
        assert(tr == line);
        assert(tr.len() >= 3);
        assert(strip_leading_spec(line, '?') =~= seq![' '] + t) by {
            assert(strip_leading_spec(line, '?') == strip_leading_spec(line.drop_first(), '?'));
            assert(line.drop_first() =~= seq![' '] + t);
            assert((seq![' '] + t)[0] == ' ');
            assert(strip_leading_spec(seq![' '] + t, '?') == seq![' '] + t);
        }
        assert((seq![' '] + t).drop_first() =~= t);
        assert(trim_start_spec(seq![' '] + t) == trim_start_spec(t));
        assert(trim_spec(seq![' '] + t) == t);
    } else {
        assert(line =~= seq!['?', ' ']);
        assert(trim_start_spec(line) == line);
        assert(line.last() == ' ');
        assert(line.drop_last() =~= seq!['?']);
        assert(trim_end_spec(seq!['?']) =~= seq!['?']);
        let tr = trim_spec(line);
        assert(tr =~= seq!['?']);
        assert(strip_leading_spec(tr, '?') =~= Seq::<char>::empty()) by {
            assert(strip_leading_spec(tr, '?') == strip_leading_spec(tr.drop_first(), '?'));
            assert(tr.drop_first() =~= Seq::<char>::empty());
            assert(strip_leading_spec(Seq::<char>::empty(), '?') == Seq::<char>::empty());
        }
        assert(trim_spec(Seq::<char>::empty()) =~= Seq::<char>::empty());
        assert(t =~= Seq::<char>::empty());
    }
}

/// A rendered option line is classified as that option, with its mark.
proof fn lemma_classify_opt_line(t: Seq<char>, correct: bool)
    requires
        text_clean(t),
        t.len() > 0,
    ensures
        classify_line(
            seq![
                if correct {
                    '*'
                } else {
                    '-'
                },
                ' ',
            ] + t,
        ) == LineKind::Opt(t, correct),
{
    let m = if correct {
        '*'
    } else {
        '-'
    };
    let line = seq![m, ' '] + t;
    assert(line[0] == m);
    lemma_trim_fixed_ends(t);
    assert(line.last() == t.last());
    assert(trim_start_spec(line) == line);
    assert(trim_end_spec(line) == line);
    let tr = trim_spec(line);
    assert(tr == line);
    assert(tr.len() >= 3);
    assert(line.drop_first() =~= seq![' '] + t);
    assert((seq![' '] + t).drop_first() =~= t);
    assert(trim_start_spec(seq![' '] + t) == trim_start_spec(t));
    assert(trim_spec(seq![' '] + t) == t);
}

/// The option entries the renderer writes for `options` with the correct
/// one at `ci`.
pub open spec fn rendered_opts(options: Seq<Seq<char>>, ci: int) -> Seq<(Seq<char>, bool)> {
    Seq::new(options.len(), |k: int| (options[k], k == ci))
}

/// Counting correct marks over a prefix of the rendered options.
proof fn lemma_rendered_opts_count(options: Seq<Seq<char>>, ci: int, n: int)
    requires
        0 <= ci < options.len(),
        0 <= n <= options.len(),
    ensures
        count_correct(rendered_opts(options, ci).take(n)) == if ci < n {
            1int
        } else {
            0int
        },
    decreases n,
{
    let ro = rendered_opts(options, ci);
    if n > 0 {
        lemma_rendered_opts_count(options, ci, n - 1);
        assert(ro.take(n).drop_last() =~= ro.take(n - 1));
        assert(ro.take(n).last() == ro[n - 1]);
    }
}

/// The rendered options carry exactly one correct mark, at `ci`, and
/// project back to the given option texts.
proof fn lemma_rendered_opts_valid(options: Seq<Seq<char>>, ci: int)
    requires
        0 <= ci < options.len(),
    ensures
        count_correct(rendered_opts(options, ci)) == 1,
        first_correct(rendered_opts(options, ci)) == ci,
        rendered_opts(options, ci).map_values(|o: (Seq<char>, bool)| o.0) =~= options,
{
    let ro = rendered_opts(options, ci);
    lemma_rendered_opts_count(options, ci, options.len() as int);
    assert(ro.take(options.len() as int) =~= ro);
    lemma_first_correct_at(ro, ci);
}

/// The questions of `qs` from `j` on, each with its time limit replaced
/// by `d` — what parsing the rendered form reads back.
pub open spec fn with_time_limit(qs: Seq<QuestionView>, j: int, d: u64) -> Seq<QuestionView> {
    Seq::new((qs.len() - j) as nat, |m: int| QuestionView { time_limit_sec: d, ..qs[j + m] })
}

/// The output questions once the parser's pending question, if any, is
/// validated.
pub open spec fn flush_questions(st: ParseState, d: u64) -> Seq<QuestionView> {
    if st.cur is Some {
        finalize_spec(st.questions, st.errors, st.cur->0, d).0
    } else {
        st.questions
    }
}

/// Running the parser over the rendered option lines of one question
/// (followed by anything else) loads exactly those options onto the
/// pending question.
proof fn lemma_fold_option_lines(
    st: ParseState,
    options: Seq<Seq<char>>,
    ci: int,
    k: int,
    rest: Seq<char>,
    ln: int,
    d: u64,
)
    requires
        st.cur is Some,
        0 <= k <= options.len(),
        0 <= ci < options.len(),
        forall|k2: int|
            k <= k2 < options.len() ==> (#[trigger] options[k2]).len() > 0 && text_clean(
                options[k2],
            ),
    ensures
        fold_lines_spec(
            st,
            split_lines_spec(render_options_spec(options, ci, k) + rest),
            ln,
            d,
        ) == fold_lines_spec(
            ParseState {
                cur: Some(
                    PendingQuestion {
                        opts: st.cur->0.opts + rendered_opts(options, ci).skip(k),
                        ..st.cur->0
                    },
                ),
                ..st
            },
            split_lines_spec(rest),
            ln + (options.len() - k),
            d,
        ),
    decreases options.len() - k,
{
    if k == options.len() {
        assert(render_options_spec(options, ci, k) + rest =~= rest);
        assert(rendered_opts(options, ci).skip(k) =~= Seq::<(Seq<char>, bool)>::empty());
        assert(st.cur->0.opts + rendered_opts(options, ci).skip(k) =~= st.cur->0.opts);
        assert(ParseState {
            cur: Some(
                PendingQuestion {
                    opts: st.cur->0.opts + rendered_opts(options, ci).skip(k),
                    ..st.cur->0
                },
            ),
            ..st
        } =~~= st);
    } else {
        let m = if k == ci {
            '*'
        } else {
            '-'
        };
        let body = seq![m, ' '] + options[k];
        let tail = render_options_spec(options, ci, k + 1) + rest;
        assert(render_options_spec(options, ci, k) + rest =~= body + seq!['\n'] + tail) by {
            assert(render_option_spec(options[k], k == ci) =~= body + seq!['\n']) by {
                reveal_strlit("* ");
                reveal_strlit("- ");
                reveal_strlit("\n");
            }
        }
        assert(forall|x: int| 0 <= x < body.len() ==> body[x] != '\n') by {
            assert(body[0] == m && body[1] == ' ');
        }
        lemma_split_lines_cat(body, tail);
        lemma_classify_opt_line(options[k], k == ci);
        let st1 = step_spec(st, body, ln, d);
        assert(st1 == ParseState {
            cur: Some(PendingQuestion { opts: st.cur->0.opts.push((options[k], k == ci)), ..st.cur->0 }),
            ..st
        });
        lemma_fold_option_lines(st1, options, ci, k + 1, rest, ln + 1, d);
        assert(st1.cur->0.opts + rendered_opts(options, ci).skip(k + 1) =~= st.cur->0.opts
            + rendered_opts(options, ci).skip(k));
        assert(fold_lines_spec(st, split_lines_spec(render_options_spec(options, ci, k) + rest), ln, d)
            == fold_lines_spec(st1, split_lines_spec(tail), ln + 1, d)) by {
            assert(split_lines_spec(render_options_spec(options, ci, k) + rest) =~~= seq![body]
                + split_lines_spec(tail));
            assert((seq![body] + split_lines_spec(tail)).drop_first() =~~= split_lines_spec(tail));
        }
    }
}

/// Running the parser over the rendered questions from `j` on, starting
/// with no problem found and a valid pending question (or none), collects
/// exactly those questions, with the default time limit, and no problem.
#[verifier::rlimit(100)]
proof fn lemma_fold_question_lines(st: ParseState, qs: Seq<QuestionView>, j: int, ln: int, d: u64)
    requires
        0 <= j <= qs.len(),
        forall|j2: int| j <= j2 < qs.len() ==> question_renderable(#[trigger] qs[j2]),
        st.cur is Some ==> ({
            let fq = finalize_spec(st.questions, st.errors, st.cur->0, d);
            fq.1 == st.errors
        }),
    ensures
        ({
            let res = fold_lines_spec(
                st,
                split_lines_spec(render_questions_spec(qs, j)),
                ln,
                d,
            );
            if j == qs.len() {
                res == st
            } else {
                &&& res.title == st.title
                &&& res.errors == st.errors
                &&& res.cur is Some
                &&& finalize_spec(res.questions, res.errors, res.cur->0, d).1 == res.errors
                &&& finalize_spec(res.questions, res.errors, res.cur->0, d).0 =~= flush_questions(
                    st,
                    d,
                ) + with_time_limit(qs, j, d)
            }
        }),
    decreases qs.len() - j,
{
    if j < qs.len() {
        let qu = qs[j];
        let qbody = seq!['?', ' '] + qu.text;
        let opts_chunk = render_options_spec(qu.options, qu.correct_index, 0);
        let rest = render_questions_spec(qs, j + 1);
        assert(render_questions_spec(qs, j) =~= qbody + seq!['\n'] + (opts_chunk + rest)) by {
            assert(render_question_spec(qu) =~= qbody + seq!['\n'] + opts_chunk) by {
                reveal_strlit("? ");
                reveal_strlit("\n");
            }
        }
        assert(forall|x: int| 0 <= x < qbody.len() ==> qbody[x] != '\n') by {
            assert(qbody[0] == '?' && qbody[1] == ' ');
        }
        lemma_split_lines_cat(qbody, opts_chunk + rest);
        lemma_classify_quest_line(qu.text);
        let st1 = step_spec(st, qbody, ln, d);
        assert(st1.title == st.title && st1.errors == st.errors);
        assert(st1.questions == flush_questions(st, d));
        assert(st1.cur == Some(
            PendingQuestion { text: qu.text, start_line: ln, opts: Seq::empty() },
        ));
        lemma_fold_option_lines(st1, qu.options, qu.correct_index, 0, rest, ln + 1, d);
        let ro = rendered_opts(qu.options, qu.correct_index);
        let st2 = ParseState {
            cur: Some(PendingQuestion { opts: st1.cur->0.opts + ro.skip(0), ..st1.cur->0 }),
            ..st1
        };
        assert(st2.cur->0.opts =~= ro);
        lemma_rendered_opts_valid(qu.options, qu.correct_index);
        let fq2 = finalize_spec(st2.questions, st2.errors, st2.cur->0, d);
        assert(fq2.1 == st2.errors);
        assert(fq2.0 == st2.questions.push(
            QuestionView {
                text: qu.text,
                options: ro.map_values(|o: (Seq<char>, bool)| o.0),
                correct_index: qu.correct_index,
                time_limit_sec: d,
            },
        ));
        lemma_fold_question_lines(st2, qs, j + 1, ln + 1 + (qu.options.len() - 0), d);
        let res = fold_lines_spec(st, split_lines_spec(render_questions_spec(qs, j)), ln, d);
        assert(fold_lines_spec(st, split_lines_spec(render_questions_spec(qs, j)), ln, d)
            == fold_lines_spec(st1, split_lines_spec(opts_chunk + rest), ln + 1, d)) by {
            assert(split_lines_spec(render_questions_spec(qs, j)) =~~= seq![qbody]
                + split_lines_spec(opts_chunk + rest));
            assert((seq![qbody] + split_lines_spec(opts_chunk + rest)).drop_first()
                =~~= split_lines_spec(opts_chunk + rest));
        }
        if j + 1 == qs.len() {
            assert(res == st2);
            assert(finalize_spec(res.questions, res.errors, res.cur->0, d).0 =~= flush_questions(
                st,
                d,
            ) + with_time_limit(qs, j, d)) by {
                assert(ro.map_values(|o: (Seq<char>, bool)| o.0) =~= qu.options);
                assert(with_time_limit(qs, j, d) =~= seq![
                    QuestionView { time_limit_sec: d, ..qu },
                ]);
                assert(QuestionView {
                    text: qu.text,
                    options: qu.options,
                    correct_index: qu.correct_index,
                    time_limit_sec: d,
                } =~~= QuestionView { time_limit_sec: d, ..qu });
            }
        } else {
            let resq = finalize_spec(res.questions, res.errors, res.cur->0, d);
            assert(resq.0 =~= flush_questions(st2, d) + with_time_limit(qs, j + 1, d));
            assert(flush_questions(st2, d) == fq2.0);
            assert(resq.0 =~= flush_questions(st, d) + with_time_limit(qs, j, d)) by {
                assert(ro.map_values(|o: (Seq<char>, bool)| o.0) =~= qu.options);
                assert(QuestionView {
                    text: qu.text,
                    options: qu.options,
                    correct_index: qu.correct_index,
                    time_limit_sec: d,
                } =~~= QuestionView { time_limit_sec: d, ..qu });
                assert(flush_questions(st, d).push(QuestionView { time_limit_sec: d, ..qu })
                    + with_time_limit(qs, j + 1, d) =~= flush_questions(st, d) + with_time_limit(
                    qs,
                    j,
                    d,
                ));
            }
        }
    }
}

/// Parsing a rendered quiz succeeds and preserves the title, the question
/// order, each question's text and options in order, and the correct
/// option — every question's time limit being the default passed to the
/// parser.
pub proof fn lemma_parse_render_round_trip(q: QuizView, default_time: u64)
    requires
        renderable(q),
    ensures
        spec_parse_quiz(spec_render_quiz(q), default_time) is Ok,
        ({
            let out = spec_parse_quiz(spec_render_quiz(q), default_time)->Ok_0;
            &&& out.title == q.title
            &&& out.questions.len() == q.questions.len()
            &&& forall|i: int|
                0 <= i < q.questions.len() ==> (#[trigger] out.questions[i]).text
                    == q.questions[i].text && out.questions[i].options == q.questions[i].options
                    && out.questions[i].correct_index == q.questions[i].correct_index
        }),
{
    let content = spec_render_quiz(q);
    let tbody = seq!['#', ' '] + q.title;
    let rest = render_questions_spec(q.questions, 0);
    assert(content =~= tbody + seq!['\n'] + rest) by {
        reveal_strlit("# ");
        reveal_strlit("\n");
    }
    assert(forall|x: int| 0 <= x < tbody.len() ==> tbody[x] != '\n') by {
        assert(tbody[0] == '#' && tbody[1] == ' ');
    }
    lemma_split_lines_cat(tbody, rest);
    lemma_classify_title_line(q.title);
    let st0 = init_state();
    let st1 = step_spec(st0, tbody, 1, default_time);
    assert(st1 == ParseState { title: q.title, cur: None, questions: Seq::empty(), errors: Seq::empty() });
    lemma_fold_question_lines(st1, q.questions, 0, 2, default_time);
    let res = fold_lines_spec(st0, split_lines_spec(content), 1, default_time);
    assert(res == fold_lines_spec(st1, split_lines_spec(rest), 2, default_time)) by {
        assert(split_lines_spec(content) =~~= seq![tbody] + split_lines_spec(rest));
        assert((seq![tbody] + split_lines_spec(rest)).drop_first() =~~= split_lines_spec(rest));
    }
    assert(res.cur is Some);
    let st = parse_outcome(content, default_time);
    assert(st.errors == Seq::<ParseErrorView>::empty());
    assert(st.questions =~= with_time_limit(q.questions, 0, default_time)) by {
        assert(flush_questions(st1, default_time) + with_time_limit(q.questions, 0, default_time)
            =~= with_time_limit(q.questions, 0, default_time));
    }
    assert(st.questions.len() == q.questions.len());
    let out = spec_parse_quiz(content, default_time)->Ok_0;
    assert forall|i: int| 0 <= i < q.questions.len() implies (#[trigger] out.questions[i]).text
        == q.questions[i].text && out.questions[i].options == q.questions[i].options
        && out.questions[i].correct_index == q.questions[i].correct_index by {
        assert(out.questions[i] == QuestionView { time_limit_sec: default_time, ..q.questions[i] });
    }
}

// ------------------------------------------------------------------
// Every accepted file yields a renderable quiz
// ------------------------------------------------------------------
/// With at least one correct mark, `first_correct` lands on an option.
proof fn lemma_count_correct_exists(opts: Seq<(Seq<char>, bool)>)
    requires
        count_correct(opts) >= 1,
    ensures
        exists|j: int| 0 <= j < opts.len() && (#[trigger] opts[j]).1,
    decreases opts.len(),
{
    if opts.len() > 0 {
        if opts.last().1 {
            assert(opts[opts.len() - 1].1);
        } else {
            lemma_count_correct_exists(opts.drop_last());
            let j = choose|j: int| 0 <= j < opts.drop_last().len() && (#[trigger] opts.drop_last()[j]).1;
            assert(opts[j].1);
        }
    }
}

/// `first_correct` stays within bounds, and inside them when a correct
/// mark exists.
proof fn lemma_first_correct_bounds(opts: Seq<(Seq<char>, bool)>)
    ensures
        0 <= first_correct(opts) <= opts.len(),
        (exists|j: int| 0 <= j < opts.len() && (#[trigger] opts[j]).1) ==> first_correct(opts)
            < opts.len(),
    decreases opts.len(),
{
    if opts.len() > 0 && !opts[0].1 {
        lemma_first_correct_bounds(opts.drop_first());
        if exists|j: int| 0 <= j < opts.len() && (#[trigger] opts[j]).1 {
            let j = choose|j: int| 0 <= j < opts.len() && (#[trigger] opts[j]).1;
            assert(opts.drop_first()[j - 1].1);
        }
    }
}

/// The cleanliness the parser maintains at every step: collected texts are
/// trimmed and on one line, and every accepted question can be rendered
/// back.
spec fn state_clean(st: ParseState) -> bool {
    &&& text_clean(st.title)
    &&& (st.cur matches Some(pq) ==> text_clean(pq.text) && (forall|k: int|
        0 <= k < pq.opts.len() ==> (#[trigger] pq.opts[k]).0.len() > 0 && text_clean(
            pq.opts[k].0,
        )))
    &&& forall|i: int| 0 <= i < st.questions.len() ==> question_renderable(#[trigger] st.questions[i])
}

/// Validating a cleanly collected question only adds renderable questions.
proof fn lemma_finalize_clean(
    questions: Seq<QuestionView>,
    errors: Seq<ParseErrorView>,
    q: PendingQuestion,
    default_time: u64,
)
    requires
        forall|k: int|
            0 <= k < q.opts.len() ==> (#[trigger] q.opts[k]).0.len() > 0 && text_clean(
                q.opts[k].0,
            ),
        text_clean(q.text),
        forall|i: int| 0 <= i < questions.len() ==> question_renderable(#[trigger] questions[i]),
    ensures
        ({
            let qe = finalize_spec(questions, errors, q, default_time);
            forall|i: int| 0 <= i < qe.0.len() ==> question_renderable(#[trigger] qe.0[i])
        }),
{
    let qe = finalize_spec(questions, errors, q, default_time);
    let cc = count_correct(q.opts);
    if cc == 1 && 2 <= q.opts.len() && q.opts.len() <= 4 {
        lemma_count_correct_exists(q.opts);
        lemma_first_correct_bounds(q.opts);
        let qu = qe.0.last();
        assert(question_renderable(qu)) by {
            assert forall|k: int| 0 <= k < qu.options.len() implies (
            #[trigger] qu.options[k]).len() > 0 && text_clean(qu.options[k]) by {
                assert(qu.options[k] == q.opts[k].0);
            }
        }
        assert forall|i: int| 0 <= i < qe.0.len() implies question_renderable(
            #[trigger] qe.0[i],
        ) by {
            if i < questions.len() {
                assert(qe.0[i] == questions[i]);
            }
        }
    }
}

/// One parser step keeps the state clean, fed a line without a line break.
proof fn lemma_step_clean(st: ParseState, line: Seq<char>, line_no: int, default_time: u64)
    requires
        state_clean(st),
        no_newline(line),
    ensures
        state_clean(step_spec(st, line, line_no, default_time)),
{
    let t = trim_spec(line);
    lemma_trim_no_newline(line);
    match classify_line(line) {
        LineKind::Ignored => {},
        LineKind::Title(tt) => {
            lemma_strip_leading_no_newline(t, '#');
            lemma_trim_no_newline(strip_leading_spec(t, '#'));
            lemma_trim_idempotent(strip_leading_spec(t, '#'));
        },
        LineKind::Quest(tt) => {
            lemma_strip_leading_no_newline(t, '?');
            lemma_trim_no_newline(strip_leading_spec(t, '?'));
            lemma_trim_idempotent(strip_leading_spec(t, '?'));
            if st.cur is Some {
                lemma_finalize_clean(st.questions, st.errors, st.cur->0, default_time);
            }
        },
        LineKind::Opt(tt, correct) => {
            assert(no_newline(t.drop_first())) by {
                assert forall|k: int| 0 <= k < t.drop_first().len() implies t.drop_first()[k]
                    != '\n' by {
                    assert(t.drop_first()[k] == t[k + 1]);
                }
            }
            lemma_trim_no_newline(t.drop_first());
            lemma_trim_idempotent(t.drop_first());
            if tt.len() > 0 && st.cur is Some {
                let pq = st.cur->0;
                let st1 = step_spec(st, line, line_no, default_time);
                assert forall|k: int|
                    0 <= k < st1.cur->0.opts.len() implies (#[trigger] st1.cur->0.opts[k]).0.len()
                    > 0 && text_clean(st1.cur->0.opts[k].0) by {
                    if k < pq.opts.len() {
                        assert(st1.cur->0.opts[k] == pq.opts[k]);
                    } else {
                        assert(st1.cur->0.opts[k] == (tt, correct));
                    }
                }
            }
        },
        LineKind::Unrecognized => {},
    }
}

/// Running the parser over clean lines keeps the state clean.
proof fn lemma_fold_clean(st: ParseState, lines: Seq<Seq<char>>, line_no: int, default_time: u64)
    requires
        state_clean(st),
        forall|i: int| 0 <= i < lines.len() ==> no_newline(#[trigger] lines[i]),
    ensures
        state_clean(fold_lines_spec(st, lines, line_no, default_time)),
    decreases lines.len(),
{
    if lines.len() > 0 {
        lemma_step_clean(st, lines[0], line_no, default_time);
        assert forall|i: int| 0 <= i < lines.drop_first().len() implies no_newline(
            #[trigger] lines.drop_first()[i],
        ) by {
            assert(lines.drop_first()[i] == lines[i + 1]);
        }
        lemma_fold_clean(
            step_spec(st, lines[0], line_no, default_time),
            lines.drop_first(),
            line_no + 1,
            default_time,
        );
    }
}

/// Every quiz the parser accepts can be rendered back: its title and texts
/// are trimmed single lines, and every question carries 2–4 non-empty
/// options with a valid correct index.
pub proof fn lemma_parse_ok_renderable(content: Seq<char>, default_time: u64)
    requires
        spec_parse_quiz(content, default_time) is Ok,
    ensures
        renderable(spec_parse_quiz(content, default_time)->Ok_0),
{
    let lines = split_lines_spec(content);
    lemma_split_lines_no_newline_lines(content);
    assert(state_clean(init_state())) by {
        assert(trim_spec(Seq::<char>::empty()) =~= Seq::<char>::empty());
    }
    lemma_fold_clean(init_state(), lines, 1, default_time);
    let st = fold_lines_spec(init_state(), lines, 1, default_time);
    if st.cur is Some {
        lemma_finalize_clean(st.questions, st.errors, st.cur->0, default_time);
    }
    let out = parse_outcome(content, default_time);
    assert(out.errors.len() == 0);
    assert(out.title.len() > 0);
    assert(out.questions.len() >= 1);
}

/// Parsing any accepted file, rendering the quiz it yields, and parsing
/// the rendering again reads the same quiz back: title, question order,
/// option order and the correct options are all preserved, whatever
/// default time limits the two parses used.
pub proof fn lemma_parse_render_parse(content: Seq<char>, first_default: u64, second_default: u64)
    requires
        spec_parse_quiz(content, first_default) is Ok,
    ensures
        ({
            let q = spec_parse_quiz(content, first_default)->Ok_0;
            let r = spec_parse_quiz(spec_render_quiz(q), second_default);
            &&& r is Ok
            &&& r->Ok_0.title == q.title
            &&& r->Ok_0.questions.len() == q.questions.len()
            &&& forall|i: int|
                0 <= i < q.questions.len() ==> (#[trigger] r->Ok_0.questions[i]).text
                    == q.questions[i].text && r->Ok_0.questions[i].options
                    == q.questions[i].options && r->Ok_0.questions[i].correct_index
                    == q.questions[i].correct_index
        }),
{
    lemma_parse_ok_renderable(content, first_default);
    lemma_parse_render_round_trip(spec_parse_quiz(content, first_default)->Ok_0, second_default);
}

// ------------------------------------------------------------------
// Problems are reported where they stand
// ------------------------------------------------------------------
/// Running the parser over concatenated line runs is running it over the
/// first and then the second.
proof fn lemma_fold_append(
    st: ParseState,
    l1: Seq<Seq<char>>,
    l2: Seq<Seq<char>>,
    line_no: int,
    default_time: u64,
)
    ensures
        fold_lines_spec(st, l1 + l2, line_no, default_time) == fold_lines_spec(
            fold_lines_spec(st, l1, line_no, default_time),
            l2,
            line_no + l1.len(),
            default_time,
        ),
    decreases l1.len(),
{
    if l1.len() == 0 {
        assert(l1 + l2 =~= l2);
    } else {
        assert((l1 + l2)[0] == l1[0]);
        assert((l1 + l2).drop_first() =~= l1.drop_first() + l2);
        lemma_fold_append(
            step_spec(st, l1[0], line_no, default_time),
            l1.drop_first(),
            l2,
            line_no + 1,
            default_time,
        );
    }
}

/// Validation only adds problems, never removes one.
proof fn lemma_finalize_errors_prefix(
    questions: Seq<QuestionView>,
    errors: Seq<ParseErrorView>,
    q: PendingQuestion,
    default_time: u64,
)
    ensures
        errors.is_prefix_of(finalize_spec(questions, errors, q, default_time).1),
{
    let cc = count_correct(q.opts);
    let e1 = if cc == 0 {
        errors.push(ParseErrorView { line: q.start_line, message: msg_no_correct() })
    } else if cc > 1 {
        errors.push(ParseErrorView { line: q.start_line, message: msg_multiple_correct() })
    } else {
        errors
    };
    assert(errors =~= e1.subrange(0, errors.len() as int));
    let e2 = if q.opts.len() < 2 {
        e1.push(ParseErrorView { line: q.start_line, message: msg_too_few(q.opts.len()) })
    } else {
        e1
    };
    assert(errors =~= e2.subrange(0, errors.len() as int));
    let e3 = if q.opts.len() > 4 {
        e2.push(ParseErrorView { line: q.start_line, message: msg_too_many(q.opts.len()) })
    } else {
        e2
    };
    assert(errors =~= e3.subrange(0, errors.len() as int));
}

/// One parser step only adds problems.
proof fn lemma_step_errors_prefix(st: ParseState, line: Seq<char>, line_no: int, default_time: u64)
    ensures
        st.errors.is_prefix_of(step_spec(st, line, line_no, default_time).errors),
{
    let st1 = step_spec(st, line, line_no, default_time);
    match classify_line(line) {
        LineKind::Quest(t) => {
            if st.cur is Some {
                lemma_finalize_errors_prefix(st.questions, st.errors, st.cur->0, default_time);
            } else {
                assert(st.errors =~= st1.errors.subrange(0, st.errors.len() as int));
            }
        },
        _ => {
            assert(st.errors =~= st1.errors.subrange(0, st.errors.len() as int));
        },
    }
}

/// The whole run only adds problems.
proof fn lemma_fold_errors_prefix(
    st: ParseState,
    lines: Seq<Seq<char>>,
    line_no: int,
    default_time: u64,
)
    ensures
        st.errors.is_prefix_of(fold_lines_spec(st, lines, line_no, default_time).errors),
    decreases lines.len(),
{
    if lines.len() == 0 {
        assert(st.errors =~= st.errors.subrange(0, st.errors.len() as int));
    } else {
        let st1 = step_spec(st, lines[0], line_no, default_time);
        lemma_step_errors_prefix(st, lines[0], line_no, default_time);
        lemma_fold_errors_prefix(st1, lines.drop_first(), line_no + 1, default_time);
        let res = fold_lines_spec(st, lines, line_no, default_time);
        assert(st.errors =~= res.errors.subrange(0, st.errors.len() as int)) by {
            assert(st.errors =~= st1.errors.subrange(0, st.errors.len() as int));
            assert(st1.errors =~= res.errors.subrange(0, st1.errors.len() as int));
        }
    }
}

/// A problem the run collected survives to the final outcome.
proof fn lemma_outcome_keeps_errors(content: Seq<char>, default_time: u64)
    ensures
        ({
            let st = fold_lines_spec(
                init_state(),
                split_lines_spec(content),
                1,
                default_time,
            );
            st.errors.is_prefix_of(parse_outcome(content, default_time).errors)
        }),
{
    let st = fold_lines_spec(init_state(), split_lines_spec(content), 1, default_time);
    if st.cur is Some {
        lemma_finalize_errors_prefix(st.questions, st.errors, st.cur->0, default_time);
    } else {
        assert(st.errors =~= st.errors.subrange(0, st.errors.len() as int));
    }
    let st1 = if st.cur is Some {
        let qe = finalize_spec(st.questions, st.errors, st.cur->0, default_time);
        ParseState { cur: None, questions: qe.0, errors: qe.1, ..st }
    } else {
        st
    };
    let out = parse_outcome(content, default_time);
    assert(st.errors =~= out.errors.subrange(0, st.errors.len() as int)) by {
        assert(st.errors =~= st1.errors.subrange(0, st.errors.len() as int));
        assert(st1.errors =~= out.errors.subrange(0, st1.errors.len() as int));
    }
}

/// A line the parser does not recognize — or an option line standing
/// before any question — is reported at its own 1-based line number.
pub proof fn lemma_bad_line_reported_at_line(content: Seq<char>, default_time: u64, k: int)
    requires
        0 <= k < split_lines_spec(content).len(),
        ({
            let lines = split_lines_spec(content);
            classify_line(lines[k]) is Unrecognized || ((classify_line(lines[k])
                matches LineKind::Opt(t, _) && t.len() > 0) && (forall|j: int|
                0 <= j < k ==> !(classify_line(#[trigger] lines[j]) is Quest)))
        }),
    ensures
        ({
            let out = parse_outcome(content, default_time);
            let msg = if classify_line(split_lines_spec(content)[k]) is Unrecognized {
                msg_unrecognized()
            } else {
                msg_orphan_option()
            };
            exists|i: int|
                0 <= i < out.errors.len() && (#[trigger] out.errors[i]).line == k + 1
                    && out.errors[i].message == msg
        }),
{
    let lines = split_lines_spec(content);
    assert(lines =~= lines.take(k) + lines.skip(k));
    lemma_fold_append(init_state(), lines.take(k), lines.skip(k), 1, default_time);
    let stk = fold_lines_spec(init_state(), lines.take(k), 1, default_time);
    if !(classify_line(lines[k]) is Unrecognized) {
        assert forall|j: int| 0 <= j < lines.take(k).len() implies !(classify_line(
            #[trigger] lines.take(k)[j],
        ) is Quest) by {
            assert(lines.take(k)[j] == lines[j]);
        }
        lemma_fold_no_quest_no_cur(init_state(), lines.take(k), 1, default_time);
    }
    assert(lines.skip(k)[0] == lines[k]);
    let st1 = step_spec(stk, lines[k], k + 1, default_time);
    let idx = stk.errors.len() as int;
    assert(st1.errors[idx].line == k + 1);
    assert(lines.skip(k).drop_first() =~= lines.skip(k + 1));
    lemma_fold_errors_prefix(st1, lines.skip(k + 1), k + 2, default_time);
    let res = fold_lines_spec(init_state(), lines, 1, default_time);
    assert(res == fold_lines_spec(st1, lines.skip(k + 1), k + 2, default_time));
    assert(res.errors[idx] == st1.errors[idx]);
    lemma_outcome_keeps_errors(content, default_time);
    let out = parse_outcome(content, default_time);
    assert(out.errors[idx] == res.errors[idx]);
}

/// Before the first `?` directive the parser holds no pending question.
proof fn lemma_fold_no_quest_no_cur(
    st: ParseState,
    lines: Seq<Seq<char>>,
    line_no: int,
    default_time: u64,
)
    requires
        st.cur is None,
        forall|j: int| 0 <= j < lines.len() ==> !(classify_line(#[trigger] lines[j]) is Quest),
    ensures
        fold_lines_spec(st, lines, line_no, default_time).cur is None,
    decreases lines.len(),
{
    if lines.len() > 0 {
        let st1 = step_spec(st, lines[0], line_no, default_time);
        assert(st1.cur is None);
        assert forall|j: int| 0 <= j < lines.drop_first().len() implies !(classify_line(
            #[trigger] lines.drop_first()[j],
        ) is Quest) by {
            assert(lines.drop_first()[j] == lines[j + 1]);
        }
        lemma_fold_no_quest_no_cur(st1, lines.drop_first(), line_no + 1, default_time);
    }
}

/// The option entry a line contributes (meaningful only for option lines).
pub open spec fn opt_entry(k: LineKind) -> (Seq<char>, bool) {
    match k {
        LineKind::Opt(t, c) => (t, c),
        _ => (Seq::empty(), false),
    }
}

/// The option entries contributed by a run of option lines.
pub open spec fn opts_of_lines(lines: Seq<Seq<char>>) -> Seq<(Seq<char>, bool)> {
    Seq::new(lines.len(), |j: int| opt_entry(classify_line(lines[j])))
}

/// Feeding a pending question a run of non-empty option lines collects
/// exactly those options, in order, and changes nothing else.
proof fn lemma_fold_opt_lines_collect(
    st: ParseState,
    lines: Seq<Seq<char>>,
    line_no: int,
    default_time: u64,
)
    requires
        st.cur is Some,
        forall|j: int|
            0 <= j < lines.len() ==> (classify_line(#[trigger] lines[j]) matches LineKind::Opt(
                t,
                _,
            ) && t.len() > 0),
    ensures
        ({
            let res = fold_lines_spec(st, lines, line_no, default_time);
            &&& res.cur matches Some(pq) && pq.text == st.cur->0.text && pq.start_line == st.cur
                ->0.start_line && pq.opts == st.cur->0.opts + opts_of_lines(lines)
            &&& res.questions == st.questions
            &&& res.errors == st.errors
            &&& res.title == st.title
        }),
    decreases lines.len(),
{
    if lines.len() == 0 {
        assert(st.cur->0.opts + opts_of_lines(lines) =~= st.cur->0.opts);
    } else {
        let st1 = step_spec(st, lines[0], line_no, default_time);
        assert(st1.cur->0.opts == st.cur->0.opts.push(opt_entry(classify_line(lines[0]))));
        assert forall|j: int|
            0 <= j < lines.drop_first().len() implies (classify_line(
            #[trigger] lines.drop_first()[j],
        ) matches LineKind::Opt(t, _) && t.len() > 0) by {
            assert(lines.drop_first()[j] == lines[j + 1]);
        }
        lemma_fold_opt_lines_collect(st1, lines.drop_first(), line_no + 1, default_time);
        assert(st1.cur->0.opts + opts_of_lines(lines.drop_first()) =~= st.cur->0.opts
            + opts_of_lines(lines)) by {
            assert forall|j: int| 0 <= j < lines.drop_first().len() implies opts_of_lines(
                lines.drop_first(),
            )[j] == opts_of_lines(lines)[j + 1] by {
                assert(lines.drop_first()[j] == lines[j + 1]);
            }
        }
    }
}

/// A question standing at line `k` whose option lines run to the next
/// question directive (or the end of the file) is rejected at line `k + 1`
/// when its star count or its option count is off: exactly one `*` and two
/// to four options are required.
pub proof fn lemma_question_block_validated(
    content: Seq<char>,
    default_time: u64,
    k: int,
    m: int,
)
    requires
        0 <= k,
        m >= 0,
        k + m + 1 <= split_lines_spec(content).len(),
        classify_line(split_lines_spec(content)[k]) is Quest,
        forall|j: int|
            k + 1 <= j < k + m + 1 ==> (classify_line(
                #[trigger] split_lines_spec(content)[j],
            ) matches LineKind::Opt(t, _) && t.len() > 0),
        k + m + 1 == split_lines_spec(content).len() || classify_line(
            split_lines_spec(content)[k + m + 1],
        ) is Quest,
    ensures
        ({
            let block = split_lines_spec(content).subrange(k + 1, k + m + 1);
            let cc = count_correct(opts_of_lines(block));
            let out = parse_outcome(content, default_time);
            &&& cc != 1 ==> exists|i: int|
                0 <= i < out.errors.len() && (#[trigger] out.errors[i]).line == k + 1 && (
                out.errors[i].message == msg_no_correct() || out.errors[i].message
                    == msg_multiple_correct())
            &&& !(2 <= m <= 4) ==> exists|i: int|
                0 <= i < out.errors.len() && (#[trigger] out.errors[i]).line == k + 1 && (
                out.errors[i].message == msg_too_few(m as nat) || out.errors[i].message
                    == msg_too_many(m as nat))
        }),
{
    let lines = split_lines_spec(content);
    let block = lines.subrange(k + 1, k + m + 1);
    let cc = count_correct(opts_of_lines(block));
    lemma_count_correct_nonneg(opts_of_lines(block));

    assert(lines =~= lines.take(k) + lines.skip(k));
    lemma_fold_append(init_state(), lines.take(k), lines.skip(k), 1, default_time);
    let st_a = fold_lines_spec(init_state(), lines.take(k), 1, default_time);
    assert(lines.skip(k)[0] == lines[k]);
    let st_b = step_spec(st_a, lines[k], k + 1, default_time);
    assert(st_b.cur matches Some(pq) && pq.start_line == k + 1 && pq.opts =~= Seq::<(
        Seq<char>,
        bool,
    )>::empty());
    assert(lines.skip(k).drop_first() =~= lines.skip(k + 1));
    assert(lines.skip(k + 1) =~= block + lines.skip(k + m + 1));
    lemma_fold_append(st_b, block, lines.skip(k + m + 1), k + 2, default_time);
    assert forall|j: int| 0 <= j < block.len() implies (classify_line(#[trigger] block[j])
        matches LineKind::Opt(t, _) && t.len() > 0) by {
        assert(block[j] == lines[k + 1 + j]);
    }
    lemma_fold_opt_lines_collect(st_b, block, k + 2, default_time);
    let st_c = fold_lines_spec(st_b, block, k + 2, default_time);
    assert(st_c.cur->0.opts =~= opts_of_lines(block)) by {
        assert(st_b.cur->0.opts + opts_of_lines(block) =~= opts_of_lines(block));
    }
    assert(st_c.cur->0.start_line == k + 1);
    assert(opts_of_lines(block).len() == m);

    let res = fold_lines_spec(init_state(), lines, 1, default_time);
    assert(res == fold_lines_spec(st_c, lines.skip(k + m + 1), k + 2 + m, default_time));

    let qe = finalize_spec(st_c.questions, st_c.errors, st_c.cur->0, default_time);
    let star_idx = st_c.errors.len() as int;
    let count_idx: int = if cc != 1 {
        star_idx + 1
    } else {
        star_idx
    };
    if cc != 1 {
        assert(qe.1[star_idx].line == k + 1 && (qe.1[star_idx].message == msg_no_correct()
            || qe.1[star_idx].message == msg_multiple_correct()));
    }
    if !(2 <= m && m <= 4) {
        assert(qe.1[count_idx].line == k + 1 && (qe.1[count_idx].message == msg_too_few(m as nat)
            || qe.1[count_idx].message == msg_too_many(m as nat)));
    }
    let out = parse_outcome(content, default_time);
    if k + m + 1 == lines.len() {
        // The block runs to the end: the pending question is validated by
        // the outcome itself.
        assert(lines.skip(k + m + 1).len() == 0);
        assert(res == st_c);
        assert(out.errors.len() >= qe.1.len() && (forall|i: int|
            0 <= i < qe.1.len() ==> #[trigger] out.errors[i] == qe.1[i]));
        if cc != 1 {
            assert(out.errors[star_idx] == qe.1[star_idx]);
        }
        if !(2 <= m && m <= 4) {
            assert(out.errors[count_idx] == qe.1[count_idx]);
        }
    } else {
        // A further question directive validates the pending question.
        let nxt = lines[k + m + 1];
        assert(lines.skip(k + m + 1)[0] == nxt);
        let st_d = step_spec(st_c, nxt, k + m + 2, default_time);
        assert(st_d.errors == qe.1);
        assert(lines.skip(k + m + 1).drop_first() =~= lines.skip(k + m + 2));
        lemma_fold_errors_prefix(st_d, lines.skip(k + m + 2), k + m + 3, default_time);
        assert(res == fold_lines_spec(st_d, lines.skip(k + m + 2), k + m + 3, default_time));
        lemma_outcome_keeps_errors(content, default_time);
        if cc != 1 {
            assert(out.errors[star_idx] == qe.1[star_idx]);
        }
        if !(2 <= m && m <= 4) {
            assert(out.errors[count_idx] == qe.1[count_idx]);
        }
    }
}

} // verus!
