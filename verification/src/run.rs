//! One run: a pattern, a command and the templates of its arguments.

use crate::context::{context_of, law_whole_line, ContextView, RegexContext};
use crate::pattern::{group_names, pattern_captures, pattern_compiles, Pattern, PatternError};
use crate::range::Range;
use crate::template::{
    fragment_text, instantiate, lemma_whole_line_fields, parse_field, ArgTemplate, FragmentView,
};
use crate::text::{int_text, int_to_string, join};
use std::borrow::Cow;
use vstd::prelude::*;

verus! {

/// The name under which a line's number is bound.
pub const CONTEXT_KEY_LINENUM: &'static str = "LINENUM";

/// The short name under which a line's number is bound.
pub const CONTEXT_KEY_LINENUM_SHORT: &'static str = "LN";

/// The settings of a run.
#[derive(Debug, PartialEq, Eq)]
pub struct Options {
    /// Input is delimited by NUL bytes, not by line feeds.
    pub read0: bool,
    /// The number of threads, under its old name.
    pub worker: Option<usize>,
    /// The number of threads.
    pub threads: Option<usize>,
    /// The pattern that captures the fields of a line.
    pub pattern: Option<String>,
    /// What joins the captures of a range.
    pub separator: String,
    /// The number of the first line.
    pub startnum: i32,
    /// A pattern that separates the fields of a line; used where `pattern`
    /// is not given.
    pub delimiter: Option<String>,
    /// Print the commands and do not run them.
    pub dryrun: bool,
    /// The command and the templates of its arguments.
    pub cmd_and_args: Vec<String>,
}

/// The pattern of a run: the one given; else one made of the delimiter, in
/// which every match captures the text up to the next delimiter or, at the
/// end, up to the end of the line; else the same with white space as
/// delimiter.
pub open spec fn pattern_source(pattern: Option<Seq<char>>, delimiter: Option<Seq<char>>) -> Seq<
    char,
> {
    match pattern {
        Some(pattern) => pattern,
        None => match delimiter {
            Some(delimiter) => "(.*?)"@ + delimiter + "|(.*?)$"@,
            None => "(.*?)[[:space:]]+|(.*?)$"@,
        },
    }
}

/// The pattern that `opts` asks for.
pub fn effective_pattern(opts: &Options) -> (source: String)
    ensures
        source@ == pattern_source(opts.pattern.deep_view(), opts.delimiter.deep_view()),
{
    match &opts.pattern {
        Some(pattern) => pattern.clone(),
        None => match &opts.delimiter {
            Some(delimiter) => {
                let mut source = String::from_str("(.*?)");
                source.append(delimiter.as_str());
                source.append("|(.*?)$");
                source
            },
            None => String::from_str("(.*?)[[:space:]]+|(.*?)$"),
        },
    }
}

/// A run, ready to take lines.
#[derive(Debug)]
pub struct Rargs {
    /// The pattern that every line is held against.
    pub pattern: Pattern,
    /// The command to run.
    pub command: String,
    /// The templates of the arguments of the command.
    pub args: Vec<ArgTemplate>,
    /// What joins the captures of a range that names no separator.
    pub default_sep: String,
}

/// A run as plain values.
pub struct RargsView {
    /// The text of the pattern.
    pub pattern: Seq<char>,
    /// The command.
    pub command: Seq<char>,
    /// The fragments of each argument.
    pub args: Seq<Seq<FragmentView>>,
    /// The default separator.
    pub default_sep: Seq<char>,
}

impl View for Rargs {
    type V = RargsView;

    open spec fn view(&self) -> RargsView {
        RargsView {
            pattern: self.pattern@,
            command: self.command@,
            args: self.args@.map_values(|arg: ArgTemplate| arg@),
            default_sep: self.default_sep@,
        }
    }
}

/// The run that `opts` asks for: the first word is the command, each
/// further word is compiled into the template of one argument.
pub open spec fn run_of(opts: Options) -> RargsView {
    RargsView {
        pattern: pattern_source(opts.pattern.deep_view(), opts.delimiter.deep_view()),
        command: opts.cmd_and_args[0]@,
        args: opts.cmd_and_args@.skip(1).map_values(
            |arg: String| crate::template::compile(arg@, 0),
        ),
        default_sep: opts.separator@,
    }
}

/// What a line offers to the templates of a run: the context that the
/// pattern makes of the line, with the separator of the run and with the
/// line's number bound to `LINENUM` and `LN`.
pub open spec fn line_context(
    pattern: Seq<char>,
    default_sep: Seq<char>,
    line: Seq<char>,
    line_num: int,
) -> ContextView {
    let matched = context_of(line, group_names(pattern), pattern_captures(pattern, line));
    ContextView {
        bindings: matched.bindings.insert(CONTEXT_KEY_LINENUM@, int_text(line_num)).insert(
            CONTEXT_KEY_LINENUM_SHORT@,
            int_text(line_num),
        ),
        groups: matched.groups,
        default_sep: default_sep,
    }
}

/// The arguments of the invocation for one line.
pub open spec fn args_of(run: RargsView, line: Seq<char>, line_num: int) -> Seq<Seq<char>> {
    run.args.map_values(
        |arg: Seq<FragmentView>|
            instantiate(arg, line_context(run.pattern, run.default_sep, line, line_num)),
    )
}

/// The invocation for one line as one text: the command and its arguments,
/// a space between each two.
pub open spec fn command_line_of(run: RargsView, line: Seq<char>, line_num: int) -> Seq<char> {
    run.command + seq![' '] + join(args_of(run, line, line_num), seq![' '])
}

/// Whatever the pattern captures, a line offers itself under the empty
/// name, under `0` and at index 0, and its number under `LINENUM` and `LN`.
/// So the fields `{}` and `{0}` give the whole line.
pub proof fn law_line_context_bindings(
    pattern: Seq<char>,
    default_sep: Seq<char>,
    line: Seq<char>,
    line_num: int,
    sep: Option<Seq<char>>,
)
    ensures
        line_context(pattern, default_sep, line, line_num).named(Seq::empty()) == Some(line),
        line_context(pattern, default_sep, line, line_num).named(seq!['0']) == Some(line),
        line_context(pattern, default_sep, line, line_num).ranged(Range::Single(0), sep) == Some(
            line,
        ),
        line_context(pattern, default_sep, line, line_num).named(CONTEXT_KEY_LINENUM@) == Some(
            int_text(line_num),
        ),
        line_context(pattern, default_sep, line, line_num).named(CONTEXT_KEY_LINENUM_SHORT@)
            == Some(int_text(line_num)),
        fragment_text(parse_field("{}"@), line_context(pattern, default_sep, line, line_num))
            == line,
        fragment_text(parse_field("{0}"@), line_context(pattern, default_sep, line, line_num))
            == line,
{
    lemma_whole_line_fields();
    reveal_strlit("LINENUM");
    reveal_strlit("LN");
    law_whole_line(line, group_names(pattern), pattern_captures(pattern, line), sep);
    assert(CONTEXT_KEY_LINENUM@.len() == 7);
    assert(CONTEXT_KEY_LINENUM_SHORT@.len() == 2);
    assert(seq!['0'].len() == 1);
}

impl Rargs {
    /// Makes the run that `opts` asks for. It fails where the engine does
    /// not take the pattern, and only there.
    pub fn new(opts: &Options) -> (made: Result<Rargs, PatternError>)
        requires
            opts.cmd_and_args@.len() > 0,
        ensures
            made is Ok <==> pattern_compiles(run_of(*opts).pattern),
            match made {
                Ok(rargs) => rargs@ == run_of(*opts),
                Err(error) => error.pattern@ == run_of(*opts).pattern,
            },
    {
        let source = effective_pattern(opts);
        Self::with_pattern(opts, Pattern::new(source.as_str()))
    }

    /// Makes the run that `opts` asks for, given what compiling its pattern
    /// gave: a run with that pattern, or else the same error.
    pub fn with_pattern(opts: &Options, compiled: Result<Pattern, PatternError>) -> (made: Result<
        Rargs,
        PatternError,
    >)
        requires
            opts.cmd_and_args@.len() > 0,
        ensures
            match compiled {
                Ok(pattern) => made is Ok && made->Ok_0@ == (RargsView {
                    pattern: pattern@,
                    ..run_of(*opts)
                }),
                Err(error) => made == Err::<Rargs, PatternError>(error),
            },
    {
        match compiled {
            Ok(pattern) => {
                let command = opts.cmd_and_args[0].clone();
                let mut args: Vec<ArgTemplate> = Vec::new();
                let mut i: usize = 1;
                assert(args@.map_values(|arg: ArgTemplate| arg@) =~= Seq::empty());
                while i < opts.cmd_and_args.len()
                    invariant
                        1 <= i <= opts.cmd_and_args.len(),
                        args@.map_values(|arg: ArgTemplate| arg@) == opts.cmd_and_args@.skip(
                            1,
                        ).map_values(|arg: String| crate::template::compile(arg@, 0)).take(i - 1),
                    decreases opts.cmd_and_args.len() - i,
                {
                    let ghost done = args@.map_values(|arg: ArgTemplate| arg@);
                    let template = ArgTemplate::from(opts.cmd_and_args[i].as_str());
                    args.push(template);
                    assert(args@.map_values(|arg: ArgTemplate| arg@) =~= done.push(
                        crate::template::compile(opts.cmd_and_args[i as int]@, 0),
                    ));
                    i = i + 1;
                }
                let default_sep = opts.separator.clone();
                let rargs = Rargs { pattern, command, args, default_sep };
                assert(rargs@.args =~= run_of(*opts).args);
                Ok(rargs)
            },
            Err(error) => Err(error),
        }
    }

    /// The arguments of the invocation for the line `line`, which is
    /// number `line_num`.
    pub fn get_args(&self, line: &str, line_num: i32) -> (args: Vec<String>)
        ensures
            args.deep_view() == args_of(self@, line@, line_num as int),
    {
        let number = int_to_string(line_num);
        let context = RegexContext::builder(&self.pattern, line).default_sep(
            Cow::Borrowed(self.default_sep.as_str()),
        ).put(CONTEXT_KEY_LINENUM, Cow::Owned(number.clone())).put(
            CONTEXT_KEY_LINENUM_SHORT,
            Cow::Owned(number),
        ).build();
        assert(context@ == line_context(self@.pattern, self@.default_sep, line@, line_num as int));
        let mut args: Vec<String> = Vec::new();
        let mut i: usize = 0;
        assert(args.deep_view() =~= Seq::empty());
        while i < self.args.len()
            invariant
                i <= self.args.len(),
                context@ == line_context(self@.pattern, self@.default_sep, line@, line_num as int),
                args.deep_view() == args_of(self@, line@, line_num as int).take(i as int),
            decreases self.args.len() - i,
        {
            let ghost done = args.deep_view();
            let arg = self.args[i].apply_context(&context);
            args.push(arg);
            assert(args.deep_view() =~= done.push(arg@));
            i = i + 1;
        }
        assert(args.deep_view() =~= args_of(self@, line@, line_num as int));
        args
    }

    /// The invocation for one line as it is shown in place of being run.
    pub fn command_line(&self, line: &str, line_num: i32) -> (text: String)
        ensures
            text@ == command_line_of(self@, line@, line_num as int),
    {
        let args = self.get_args(line, line_num);
        let ghost texts = args.deep_view();
        let mut text = self.command.clone();
        text.append(" ");
        proof {
            reveal_strlit(" ");
            assert(" "@ =~= seq![' ']);
        }
        let mut i: usize = 0;
        let ghost head = self@.command + seq![' '];
        while i < args.len()
            invariant
                i <= args.len(),
                texts == args.deep_view(),
                " "@ == seq![' '],
                text@ == head + join(texts.take(i as int), seq![' ']),
            decreases args.len() - i,
        {
            proof {
                assert(texts.take(i + 1).drop_last() == texts.take(i as int));
                assert(texts.take(i + 1).last() == args[i as int]@);
            }
            if i > 0 {
                text.append(" ");
            }
            text.append(args[i].as_str());
            i = i + 1;
        }
        assert(texts.take(i as int) == texts);
        text
    }
}

} // verus!
