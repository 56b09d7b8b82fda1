//! The command line of the supervisor.
//!
//! ```text
//! max_rss [flags] <COMMAND>...
//! max_rss [flags] -- <COMMAND>...
//! ```
//!
//! The words of the command line are told apart by the `lexopt` crate, which
//! knows the conventions for options: clusters of short options, values that
//! are joined to their option, the separator `--`. What each option means is
//! decided here.

use vstd::prelude::*;

verus! {

/// The parser of the `lexopt` crate. Nothing is known of what it holds but
/// what the functions of this module state of it.
#[verifier::external_type_specification]
#[verifier::external_body]
pub struct ExParser(lexopt::Parser);

/// The error of the `lexopt` crate. It is handed on as it comes.
#[verifier::external_type_specification]
#[verifier::external_body]
pub struct ExError(lexopt::Error);

/// Where the result is written when the command line names no other place.
pub const DEFAULT_OUTPUT: &'static str = "./max_rss.json";

/// One word of the command line, as the lexer hands it out.
#[derive(Debug, Clone, PartialEq, Eq)]
pub enum Token {
    /// A short option, as `r` for `-r`.
    Short(char),
    /// A long option without its dashes, as `output` for `--output`.
    Long(String),
    /// An argument that is no option.
    Value(String),
}

/// The mathematical value of a [`Token`].
pub enum Word {
    Short(char),
    Long(Seq<char>),
    Value(Seq<char>),
}

impl View for Token {
    type V = Word;

    open spec fn view(&self) -> Word {
        match self {
            Token::Short(c) => Word::Short(*c),
            Token::Long(name) => Word::Long(name@),
            Token::Value(text) => Word::Value(text@),
        }
    }
}

/// What the command line asks for.
#[derive(Debug)]
pub struct Args {
    /// Whether the supervisor exits with the exit code of the command.
    pub return_result: bool,
    /// Whether the supervisor reports what it sees as it goes.
    pub debug: bool,
    /// Where the result is written.
    pub output: String,
    /// The command to run and measure, with its arguments.
    pub command: Vec<String>,
}

/// The mathematical value of an [`Args`].
pub struct ArgsView {
    pub return_result: bool,
    pub debug: bool,
    pub output: Seq<char>,
    pub command: Seq<Seq<char>>,
}

impl ArgsView {
    /// What holds before the first word is read.
    pub open spec fn initial() -> ArgsView {
        ArgsView {
            return_result: false,
            debug: false,
            output: DEFAULT_OUTPUT@,
            command: Seq::empty(),
        }
    }
}

impl View for Args {
    type V = ArgsView;

    open spec fn view(&self) -> ArgsView {
        ArgsView {
            return_result: self.return_result,
            debug: self.debug,
            output: self.output@,
            command: self.command.deep_view(),
        }
    }
}

impl Default for Args {
    fn default() -> (args: Args)
        ensures
            args@ == ArgsView::initial(),
    {
        let args = Args {
            return_result: false,
            debug: false,
            output: DEFAULT_OUTPUT.to_owned(),
            command: Vec::new(),
        };
        assert(args.command.deep_view() =~= Seq::<Seq<char>>::empty());
        args
    }
}

/// Why the command line gives the supervisor nothing to run.
#[derive(Debug)]
pub enum ArgsError {
    /// The usage text was asked for.
    Help,
    /// The version was asked for.
    Version,
    /// The command line names no command.
    NoCommand,
    /// The command line holds an option that the supervisor does not know.
    Unexpected(Token),
    /// The lexer found the command line malformed.
    Lexer(lexopt::Error),
}

/// The mathematical value of an [`ArgsError`].
pub enum ArgsErrorView {
    Help,
    Version,
    NoCommand,
    Unexpected(Word),
    Lexer(lexopt::Error),
}

impl View for ArgsError {
    type V = ArgsErrorView;

    open spec fn view(&self) -> ArgsErrorView {
        match self {
            ArgsError::Help => ArgsErrorView::Help,
            ArgsError::Version => ArgsErrorView::Version,
            ArgsError::NoCommand => ArgsErrorView::NoCommand,
            ArgsError::Unexpected(token) => ArgsErrorView::Unexpected(token@),
            ArgsError::Lexer(error) => ArgsErrorView::Lexer(*error),
        }
    }
}

/// What has to follow a word before the next word is read.
#[derive(Debug)]
pub enum Demand {
    /// Nothing: the word is dealt with.
    Nothing,
    /// The value of the option, which becomes the place of the result.
    Output,
    /// All that is left of the command line, which belongs to the command.
    Rest,
    /// Nothing more is read: the command line ends here, for this reason.
    Stop(ArgsError),
}

/// The mathematical value of a [`Demand`].
pub enum DemandView {
    Nothing,
    Output,
    Rest,
    Stop(ArgsErrorView),
}

impl View for Demand {
    type V = DemandView;

    open spec fn view(&self) -> DemandView {
        match self {
            Demand::Nothing => DemandView::Nothing,
            Demand::Output => DemandView::Output,
            Demand::Rest => DemandView::Rest,
            Demand::Stop(error) => DemandView::Stop(error@),
        }
    }
}

/// What the word `word` makes of the arguments `args`, and what has to
/// follow it.
///
/// `-r` and `--return-result` switch the handing on of the exit code on,
/// `--no-return-result` switches it off, `--debug` switches the running
/// commentary on. `-o` and `--output` take a value. `-h` and `--help`, `-v`
/// and `--version` end the reading. The first argument that is no option
/// starts the command, and all that follows it belongs to the command. Every
/// other option is unknown.
pub open spec fn accepted(args: ArgsView, word: Word) -> (ArgsView, DemandView) {
    match word {
        Word::Short(c) => if c == 'r' {
            (ArgsView { return_result: true, ..args }, DemandView::Nothing)
        } else if c == 'o' {
            (args, DemandView::Output)
        } else if c == 'h' {
            (args, DemandView::Stop(ArgsErrorView::Help))
        } else if c == 'v' {
            (args, DemandView::Stop(ArgsErrorView::Version))
        } else {
            (args, DemandView::Stop(ArgsErrorView::Unexpected(word)))
        },
        Word::Long(name) => if name == "return-result"@ {
            (ArgsView { return_result: true, ..args }, DemandView::Nothing)
        } else if name == "no-return-result"@ {
            (ArgsView { return_result: false, ..args }, DemandView::Nothing)
        } else if name == "debug"@ {
            (ArgsView { debug: true, ..args }, DemandView::Nothing)
        } else if name == "output"@ {
            (args, DemandView::Output)
        } else if name == "help"@ {
            (args, DemandView::Stop(ArgsErrorView::Help))
        } else if name == "version"@ {
            (args, DemandView::Stop(ArgsErrorView::Version))
        } else {
            (args, DemandView::Stop(ArgsErrorView::Unexpected(word)))
        },
        Word::Value(text) => (
            ArgsView { command: args.command.push(text), ..args },
            DemandView::Rest,
        ),
    }
}

/// The arguments `args` once the command line has been read to its end: an
/// error where they name no command.
pub open spec fn finished(args: ArgsView) -> Result<ArgsView, ArgsErrorView> {
    if args.command.len() == 0 {
        Err(ArgsErrorView::NoCommand)
    } else {
        Ok(args)
    }
}

/// The parser that `lexopt` makes of the arguments `args`, which do not
/// include the name of the program.
pub uninterp spec fn lexer_of(args: Seq<Seq<char>>) -> lexopt::Parser;

/// What the parser `parser` hands out as its next word, and the parser as it
/// is afterwards.
pub uninterp spec fn lexed_next(parser: lexopt::Parser) -> (
    Result<Option<Word>, lexopt::Error>,
    lexopt::Parser,
);

/// What the parser `parser` hands out as the value of the option that it
/// handed out last, and the parser as it is afterwards.
pub uninterp spec fn lexed_value(parser: lexopt::Parser) -> (
    Result<Seq<char>, lexopt::Error>,
    lexopt::Parser,
);

/// What the parser `parser` hands out as the arguments that it has not read
/// yet, and the parser as it is afterwards.
pub uninterp spec fn lexed_rest(parser: lexopt::Parser) -> (
    Result<Seq<Seq<char>>, lexopt::Error>,
    lexopt::Parser,
);

/// How much of the command line the parser `parser` has still before it: the
/// bytes that it has not passed, and one more for every argument that it has
/// not finished.
pub uninterp spec fn unread(parser: lexopt::Parser) -> nat;

/// The arguments that the parser `parser` has not taken up yet, each as the
/// text that it holds.
pub uninterp spec fn waiting(parser: lexopt::Parser) -> Seq<Seq<char>>;

/// `part` is what is left of `whole` when some of its first arguments are
/// taken away.
pub open spec fn is_tail(whole: Seq<Seq<char>>, part: Seq<Seq<char>>) -> bool {
    exists|taken: int| 0 <= taken <= whole.len() && part == #[trigger] whole.skip(taken)
}

/// From the arguments `before`, the first was taken whole as `text`, or the
/// second where the first is the separator `--`, and `after` are the
/// arguments behind it.
pub open spec fn taken_whole(
    before: Seq<Seq<char>>,
    text: Seq<char>,
    after: Seq<Seq<char>>,
) -> bool {
    ||| before.len() >= 1 && before[0] == text && after == before.skip(1)
    ||| before.len() >= 2 && before[0] == "--"@ && before[1] == text && after == before.skip(2)
}

/// The mathematical value of what [`lexer_next`] returns.
pub open spec fn next_view(result: Result<Option<Token>, lexopt::Error>) -> Result<
    Option<Word>,
    lexopt::Error,
> {
    match result {
        Ok(Some(token)) => Ok(Some(token@)),
        Ok(None) => Ok(None),
        Err(error) => Err(error),
    }
}

/// The mathematical value of what [`lexer_value`] returns.
pub open spec fn value_view(result: Result<String, lexopt::Error>) -> Result<
    Seq<char>,
    lexopt::Error,
> {
    match result {
        Ok(text) => Ok(text@),
        Err(error) => Err(error),
    }
}

/// The mathematical value of what [`lexer_rest`] returns.
pub open spec fn rest_view(result: Result<Vec<String>, lexopt::Error>) -> Result<
    Seq<Seq<char>>,
    lexopt::Error,
> {
    match result {
        Ok(texts) => Ok(texts.deep_view()),
        Err(error) => Err(error),
    }
}

/// Calls `lexopt::Parser::from_args`. The parser that comes back depends on
/// the arguments alone, and has taken up none of them.
#[verifier::external_body]
fn lexer_new(args: Vec<String>) -> (parser: lexopt::Parser)
    ensures
        parser == lexer_of(args.deep_view()),
        waiting(parser) == args.deep_view(),
{
    lexopt::Parser::from_args(args)
}

/// Calls `lexopt::Parser::next`, and `lexopt::ValueExt::string` on an
/// argument that is no option. What comes back, and what becomes of the
/// parser, depends on the parser alone. Unless the parser reports the end of
/// the command line, it has less of the command line before it afterwards.
/// The parser takes up arguments from the front, and an argument that is no
/// option is handed out whole: it is the first that was waiting, or the one
/// behind the separator `--`.
#[verifier::external_body]
fn lexer_next(parser: &mut lexopt::Parser) -> (result: Result<Option<Token>, lexopt::Error>)
    ensures
        (next_view(result), *final(parser)) == lexed_next(*old(parser)),
        !(result matches Ok(None)) ==> unread(*final(parser)) < unread(*old(parser)),
        is_tail(waiting(*old(parser)), waiting(*final(parser))),
        result matches Ok(Some(Token::Value(text))) ==> taken_whole(
            waiting(*old(parser)),
            text@,
            waiting(*final(parser)),
        ),
{
    match parser.next() {
        Ok(Some(lexopt::Arg::Short(c))) => Ok(Some(Token::Short(c))),
        Ok(Some(lexopt::Arg::Long(name))) => Ok(Some(Token::Long(name.to_owned()))),
        Ok(Some(lexopt::Arg::Value(text))) => lexopt::ValueExt::string(text).map(
            |text| Some(Token::Value(text)),
        ),
        Ok(None) => Ok(None),
        Err(error) => Err(error),
    }
}

/// Calls `lexopt::Parser::value`, and `lexopt::ValueExt::string` on the
/// value. What comes back, and what becomes of the parser, depends on the
/// parser alone. The parser has no more of the command line before it
/// afterwards than it had, and has taken up arguments from the front if any.
#[verifier::external_body]
fn lexer_value(parser: &mut lexopt::Parser) -> (result: Result<String, lexopt::Error>)
    ensures
        (value_view(result), *final(parser)) == lexed_value(*old(parser)),
        unread(*final(parser)) <= unread(*old(parser)),
        is_tail(waiting(*old(parser)), waiting(*final(parser))),
{
    parser.value().and_then(lexopt::ValueExt::string)
}

/// Calls `lexopt::Parser::raw_args` and takes every argument that it hands
/// out, with `lexopt::ValueExt::string` on each. What comes back, and what
/// becomes of the parser, depends on the parser alone. The parser has no more
/// of the command line before it afterwards than it had. Where the call
/// succeeds, what comes back are the arguments that were waiting, as they
/// stood, and none is waiting any more.
#[verifier::external_body]
fn lexer_rest(parser: &mut lexopt::Parser) -> (result: Result<Vec<String>, lexopt::Error>)
    ensures
        (rest_view(result), *final(parser)) == lexed_rest(*old(parser)),
        unread(*final(parser)) <= unread(*old(parser)),
        is_tail(waiting(*old(parser)), waiting(*final(parser))),
        result matches Ok(texts) ==> texts.deep_view() == waiting(*old(parser)) && waiting(
            *final(parser),
        ).len() == 0,
{
    parser.raw_args()?.map(lexopt::ValueExt::string).collect()
}

/// What the reading of a command line comes to, from the arguments `args`
/// that were gathered so far and the parser `parser` on.
///
/// Word by word: the end of the command line ends the reading, a word is
/// [`accepted`], and a value or the rest of the command line is taken from
/// the parser where the word demands it. An error of the parser ends the
/// reading. The parser has less of the command line before it after every
/// word; were it not so, the reading would end there.
pub open spec fn parsed(args: ArgsView, parser: lexopt::Parser) -> Result<ArgsView, ArgsErrorView>
    decreases unread(parser),
{
    match lexed_next(parser) {
        (Err(error), _) => Err(ArgsErrorView::Lexer(error)),
        (Ok(None), _) => finished(args),
        (Ok(Some(word)), after_word) => {
            let (taken, demand) = accepted(args, word);
            let (step, after) = match demand {
                DemandView::Nothing => (Ok(taken), after_word),
                DemandView::Output => match lexed_value(after_word) {
                    (Ok(text), after) => (Ok(ArgsView { output: text, ..taken }), after),
                    (Err(error), after) => (Err(ArgsErrorView::Lexer(error)), after),
                },
                DemandView::Rest => match lexed_rest(after_word) {
                    (Ok(texts), after) => (
                        Ok(ArgsView { command: taken.command + texts, ..taken }),
                        after,
                    ),
                    (Err(error), after) => (Err(ArgsErrorView::Lexer(error)), after),
                },
                DemandView::Stop(error) => (Err(error), after_word),
            };
            match step {
                Ok(next) => if unread(after) < unread(parser) {
                    parsed(next, after)
                } else {
                    finished(next)
                },
                Err(error) => Err(error),
            }
        },
    }
}

/// The mathematical value of what the reading of a command line returns.
pub open spec fn outcome(result: Result<Args, ArgsError>) -> Result<ArgsView, ArgsErrorView> {
    match result {
        Ok(args) => Ok(args@),
        Err(error) => Err(error@),
    }
}

/// What is left of what is left of a command line is left of the command
/// line.
proof fn lemma_tail_of_tail(whole: Seq<Seq<char>>, part: Seq<Seq<char>>, rest: Seq<Seq<char>>)
    requires
        is_tail(whole, part),
        is_tail(part, rest),
    ensures
        is_tail(whole, rest),
        rest.len() <= part.len(),
{
    let first = choose|taken: int| 0 <= taken <= whole.len() && part == #[trigger] whole.skip(taken);
    let second = choose|taken: int| 0 <= taken <= part.len() && rest == #[trigger] part.skip(taken);
    assert(rest =~= whole.skip(first + second));
}

/// Whether the text of `name` is `text`.
fn spells(name: &String, text: &str) -> (same: bool)
    ensures
        same == (name@ == text@),
{
    let text = text.to_owned();
    *name == text
}

impl Args {
    /// Takes one word of the command line into account, and says what has to
    /// follow it.
    pub fn accept(&mut self, token: Token) -> (demand: Demand)
        ensures
            (final(self)@, demand@) == accepted(old(self)@, token@),
    {
        match token {
            Token::Short(c) => {
                if c == 'r' {
                    self.return_result = true;
                    Demand::Nothing
                } else if c == 'o' {
                    Demand::Output
                } else if c == 'h' {
                    Demand::Stop(ArgsError::Help)
                } else if c == 'v' {
                    Demand::Stop(ArgsError::Version)
                } else {
                    Demand::Stop(ArgsError::Unexpected(Token::Short(c)))
                }
            },
            Token::Long(name) => {
                if spells(&name, "return-result") {
                    self.return_result = true;
                    Demand::Nothing
                } else if spells(&name, "no-return-result") {
                    self.return_result = false;
                    Demand::Nothing
                } else if spells(&name, "debug") {
                    self.debug = true;
                    Demand::Nothing
                } else if spells(&name, "output") {
                    Demand::Output
                } else if spells(&name, "help") {
                    Demand::Stop(ArgsError::Help)
                } else if spells(&name, "version") {
                    Demand::Stop(ArgsError::Version)
                } else {
                    Demand::Stop(ArgsError::Unexpected(Token::Long(name)))
                }
            },
            Token::Value(text) => {
                let ghost before = self.command.deep_view();
                self.command.push(text);
                assert(self.command.deep_view() =~= before.push(text@));
                Demand::Rest
            },
        }
    }

    /// Ends the reading: the arguments as they are, or an error where they
    /// name no command.
    pub fn finish(self) -> (result: Result<Args, ArgsError>)
        ensures
            outcome(result) == finished(self@),
    {
        assert(self.command.deep_view().len() == self.command.len());
        if self.command.len() == 0 {
            Err(ArgsError::NoCommand)
        } else {
            Ok(self)
        }
    }

    /// Reads the command line that `parser` has before it.
    ///
    /// Where the reading succeeds, there is a command, and it is what stood
    /// at the end of the command line: the first argument that is no option,
    /// and everything behind it as it stood.
    pub fn parse_impl(parser: lexopt::Parser) -> (result: Result<Args, ArgsError>)
        ensures
            outcome(result) == parsed(ArgsView::initial(), parser),
            result matches Ok(args) ==> args@.command.len() > 0 && is_tail(
                waiting(parser),
                args@.command,
            ),
    {
        let mut lexer = parser;
        let mut args = Args::default();
        proof {
            assert(waiting(parser).skip(0) =~= waiting(parser));
        }
        loop
            invariant
                parsed(args@, lexer) == parsed(ArgsView::initial(), parser),
                is_tail(waiting(parser), waiting(lexer)),
                args@.command.len() > 0 ==> waiting(lexer).len() == 0 && is_tail(
                    waiting(parser),
                    args@.command,
                ),
            decreases unread(lexer),
        {
            let ghost before = waiting(lexer);
            let ghost gathered = args@.command;
            let token = match lexer_next(&mut lexer) {
                Ok(Some(token)) => token,
                Ok(None) => {
                    return args.finish();
                },
                Err(error) => {
                    return Err(ArgsError::Lexer(error));
                },
            };
            let ghost word = token@;
            let ghost after_word = waiting(lexer);
            proof {
                lemma_tail_of_tail(waiting(parser), before, after_word);
                if before.len() == 0 {
                    assert(after_word.len() == 0);
                }
            }
            match args.accept(token) {
                Demand::Nothing => {},
                Demand::Output => match lexer_value(&mut lexer) {
                    Ok(text) => {
                        args.output = text;
                        proof {
                            lemma_tail_of_tail(waiting(parser), after_word, waiting(lexer));
                            if after_word.len() == 0 {
                                assert(waiting(lexer).len() == 0);
                            }
                        }
                    },
                    Err(error) => {
                        return Err(ArgsError::Lexer(error));
                    },
                },
                Demand::Rest => match lexer_rest(&mut lexer) {
                    Ok(texts) => {
                        let ghost command = args.command.deep_view();
                        let mut texts = texts;
                        let ghost more = texts.deep_view();
                        args.command.append(&mut texts);
                        proof {
                            let text = word->Value_0;
                            assert(args.command.deep_view() =~= command + more);
                            assert(gathered.len() == 0);
                            assert(command =~= seq![text]);
                            if before[0] == text && after_word == before.skip(1) {
                                assert(seq![text] + more =~= before.skip(0));
                                assert(is_tail(before, args@.command));
                            } else {
                                assert(seq![text] + more =~= before.skip(1));
                                assert(is_tail(before, args@.command));
                            }
                            lemma_tail_of_tail(waiting(parser), before, args@.command);
                            lemma_tail_of_tail(waiting(parser), after_word, waiting(lexer));
                        }
                    },
                    Err(error) => {
                        return Err(ArgsError::Lexer(error));
                    },
                },
                Demand::Stop(error) => {
                    return Err(error);
                },
            }
        }
    }

    /// Reads the command line `args`, which does not include the name of the
    /// program.
    ///
    /// Where the reading succeeds, there is a command, and it is what stood
    /// at the end of `args`: the first argument that is no option, and
    /// everything behind it as it stood.
    pub fn parse(args: Vec<String>) -> (result: Result<Args, ArgsError>)
        ensures
            outcome(result) == parsed(ArgsView::initial(), lexer_of(args.deep_view())),
            result matches Ok(parsed) ==> parsed@.command.len() > 0 && is_tail(
                args.deep_view(),
                parsed@.command,
            ),
    {
        Args::parse_impl(lexer_new(args))
    }
}

} // verus!
