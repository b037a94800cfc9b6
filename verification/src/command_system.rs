//! Typed editor commands: parsing a command line into a name and arguments,
//! turning a parsed command into a typed one, and back.
use vstd::prelude::*;
use crate::decimal::{parse_unsigned, parse_usize, usize_to_decimal, decimal_text, lemma_parse_decimal_text};
use crate::text::{
    chars_of, copy_strings, index_of_char, owned, split_words, str_equal, string_of, strings_view,
    trim, trim_chars, words, first_index_of, opt_string_view, is_numeric_char, char_is_numeric, lemma_first_index_of,
    is_whitespace_char, trim_start, trim_end, word_scan,
};

verus! {

broadcast use vstd::string::group_string_axioms;

/// A command line split into its name and its arguments.
#[derive(Debug, Clone, PartialEq)]
pub struct ParsedCommand {
    pub name: String,
    pub args: Vec<String>,
}

/// The characters of a parsed command's name and of each of its arguments.
pub struct ParsedCommandView {
    pub name: Seq<char>,
    pub args: Seq<Seq<char>>,
}

impl View for ParsedCommand {
    type V = ParsedCommandView;

    open spec fn view(&self) -> ParsedCommandView {
        ParsedCommandView { name: self.name@, args: strings_view(self.args@) }
    }
}

/// Why a command line or a parsed command was refused.
#[derive(Debug, Clone, PartialEq)]
pub enum CommandError {
    /// The line holds nothing but whitespace.
    EmptyCommand,
    /// The line starts with a space before any name.
    EmptyCommandName,
    /// `goto` without an argument.
    MissingLineNumber,
    /// `goto` with an argument that is not a line number.
    InvalidLineNumber,
    /// `theme` without an argument.
    MissingThemeName,
    /// `open` without an argument.
    MissingFilePath,
    /// A name that no command has.
    UnknownCommand { name: String },
}

/// The refusal with the unknown name as characters.
pub enum CommandErrorView {
    EmptyCommand,
    EmptyCommandName,
    MissingLineNumber,
    InvalidLineNumber,
    MissingThemeName,
    MissingFilePath,
    UnknownCommand { name: Seq<char> },
}

impl View for CommandError {
    type V = CommandErrorView;

    open spec fn view(&self) -> CommandErrorView {
        match self {
            CommandError::EmptyCommand => CommandErrorView::EmptyCommand,
            CommandError::EmptyCommandName => CommandErrorView::EmptyCommandName,
            CommandError::MissingLineNumber => CommandErrorView::MissingLineNumber,
            CommandError::InvalidLineNumber => CommandErrorView::InvalidLineNumber,
            CommandError::MissingThemeName => CommandErrorView::MissingThemeName,
            CommandError::MissingFilePath => CommandErrorView::MissingFilePath,
            CommandError::UnknownCommand { name } => CommandErrorView::UnknownCommand {
                name: name@,
            },
        }
    }
}

/// The message text of each refusal.
pub open spec fn error_message(e: CommandErrorView) -> Seq<char> {
    match e {
        CommandErrorView::EmptyCommand => "Empty command"@,
        CommandErrorView::EmptyCommandName => "Empty command name"@,
        CommandErrorView::MissingLineNumber => "goto requires a line number"@,
        CommandErrorView::InvalidLineNumber => "Invalid line number"@,
        CommandErrorView::MissingThemeName => "theme requires a theme name"@,
        CommandErrorView::MissingFilePath => "open requires a file path"@,
        CommandErrorView::UnknownCommand { name } => "Unknown command: "@ + name,
    }
}

impl CommandError {
    /// The message that describes the refusal.
    pub fn message(&self) -> (r: String)
        ensures
            r@ == error_message(self@),
    {
        match self {
            CommandError::EmptyCommand => owned("Empty command"),
            CommandError::EmptyCommandName => owned("Empty command name"),
            CommandError::MissingLineNumber => owned("goto requires a line number"),
            CommandError::InvalidLineNumber => owned("Invalid line number"),
            CommandError::MissingThemeName => owned("theme requires a theme name"),
            CommandError::MissingFilePath => owned("open requires a file path"),
            CommandError::UnknownCommand { name } => {
                let mut m = owned("Unknown command: ");
                m.append(name.as_str());
                m
            },
        }
    }
}

/// Whether every character of the line is numeric.
pub open spec fn all_numeric(s: Seq<char>) -> bool {
    forall|i: int| 0 <= i < s.len() ==> is_numeric_char(#[trigger] s[i])
}

/// What parsing a command line gives: the trimmed line; a line of numeric
/// characters is `goto` with the line as argument; otherwise the name runs to
/// the first space and the arguments are the words after it.
pub open spec fn parse_spec(input: Seq<char>) -> Result<ParsedCommandView, CommandErrorView> {
    let t = trim(input);
    if t.len() == 0 {
        Err(CommandErrorView::EmptyCommand)
    } else if all_numeric(t) {
        Ok(ParsedCommandView { name: "goto"@, args: seq![t] })
    } else {
        let k = first_index_of(t, ' ');
        let name = t.subrange(0, k);
        if name.len() == 0 {
            Err(CommandErrorView::EmptyCommandName)
        } else if k < t.len() {
            Ok(ParsedCommandView { name, args: words(t.subrange(k + 1, t.len() as int)) })
        } else {
            Ok(ParsedCommandView { name, args: seq![] })
        }
    }
}

/// The names of the commands that exist.
pub open spec fn is_known_command(n: Seq<char>) -> bool {
    ||| n == "quit"@
    ||| n == "q"@
    ||| n == "write"@
    ||| n == "w"@
    ||| n == "wq"@
    ||| n == "x"@
    ||| n == "goto"@
    ||| n == "theme"@
    ||| n == "open"@
    ||| n == "o"@
    ||| n == "split"@
    ||| n == "sp"@
    ||| n == "vsplit"@
    ||| n == "vs"@
    ||| n == "close"@
    ||| n == "bc"@
    ||| n == "bclose"@
    ||| n == "help"@
    ||| n == "h"@
}

/// The documentation line of a command, where one is recorded.
pub open spec fn description_spec(n: Seq<char>) -> Option<Seq<char>> {
    if n == "quit"@ || n == "q"@ {
        Some("Close the current view."@)
    } else if n == "write"@ || n == "w"@ {
        Some("Write changes to disk."@)
    } else if n == "goto"@ {
        Some("Goto line number."@)
    } else if n == "theme"@ {
        Some("Change the editor theme."@)
    } else {
        None
    }
}

/// The text of a parsed command: its name, then each argument after a space.
pub open spec fn display_spec(p: ParsedCommandView) -> Seq<char>
    decreases p.args.len(),
{
    if p.args.len() == 0 {
        p.name
    } else {
        display_spec(ParsedCommandView { name: p.name, args: p.args.drop_last() }) + " "@
            + p.args.last()
    }
}

fn numeric_chars(s: &[char]) -> (r: bool)
    ensures
        r == all_numeric(s@),
{
    let mut i: usize = 0;
    while i < s.len()
        invariant
            i <= s.len(),
            forall|k: int| 0 <= k < i ==> is_numeric_char(#[trigger] s@[k]),
        decreases s.len() - i,
    {
        if !char_is_numeric(s[i]) {
            return false;
        }
        i = i + 1;
    }
    true
}

fn strings_of_words(ws: &Vec<Vec<char>>) -> (r: Vec<String>)
    ensures
        strings_view(r@) == ws@.map_values(|w: Vec<char>| w@),
{
    let mut r: Vec<String> = Vec::new();
    let mut i: usize = 0;
    while i < ws.len()
        invariant
            i <= ws.len(),
            r@.len() == i,
            forall|k: int| 0 <= k < i ==> #[trigger] r@[k]@ == ws@[k]@,
        decreases ws.len() - i,
    {
        let s = string_of(ws[i].as_slice());
        r.push(s);
        i = i + 1;
    }
    assert(strings_view(r@) =~= ws@.map_values(|w: Vec<char>| w@));
    r
}

fn copy_range(s: &[char], from: usize, to: usize) -> (r: Vec<char>)
    requires
        from <= to <= s.len(),
    ensures
        r@ == s@.subrange(from as int, to as int),
{
    let mut r: Vec<char> = Vec::new();
    let mut i: usize = from;
    while i < to
        invariant
            from <= i <= to <= s.len(),
            r@ == s@.subrange(from as int, i as int),
        decreases to - i,
    {
        r.push(s[i]);
        i = i + 1;
        assert(r@ =~= s@.subrange(from as int, i as int));
    }
    r
}

impl ParsedCommand {
    /// Splits a command line into a command name and its arguments.
    pub fn parse(input: &str) -> (r: Result<ParsedCommand, CommandError>)
        ensures
            match r {
                Ok(p) => parse_spec(input@) == Ok::<ParsedCommandView, CommandErrorView>(p@),
                Err(e) => parse_spec(input@) == Err::<ParsedCommandView, CommandErrorView>(e@),
            },
    {
        let chars = chars_of(input);
        let t = trim_chars(chars.as_slice());
        if t.len() == 0 {
            return Err(CommandError::EmptyCommand);
        }
        if numeric_chars(t.as_slice()) {
            let line = string_of(t.as_slice());
            let mut args: Vec<String> = Vec::new();
            args.push(line);
            let r = ParsedCommand { name: owned("goto"), args };
            assert(r@.args =~= seq![t@]);
            return Ok(r);
        }
        let k = index_of_char(t.as_slice(), ' ');
        proof {
            lemma_first_index_of(t@, ' ');
        }
        let name_chars = copy_range(t.as_slice(), 0, k);
        if name_chars.len() == 0 {
            return Err(CommandError::EmptyCommandName);
        }
        let name = string_of(name_chars.as_slice());
        let args = if k < t.len() {
            let rest = copy_range(t.as_slice(), k + 1, t.len());
            let ws = split_words(rest.as_slice());
            strings_of_words(&ws)
        } else {
            let empty: Vec<String> = Vec::new();
            assert(strings_view(empty@) =~= Seq::<Seq<char>>::empty());
            empty
        };
        Ok(ParsedCommand { name, args })
    }

    /// Whether a command of this name exists.
    pub fn command_exists(&self) -> (r: bool)
        ensures
            r == is_known_command(self.name@),
    {
        let n = self.name.as_str();
        str_equal(n, "quit") || str_equal(n, "q") || str_equal(n, "write") || str_equal(n, "w")
            || str_equal(n, "wq") || str_equal(n, "x") || str_equal(n, "goto") || str_equal(
            n,
            "theme",
        ) || str_equal(n, "open") || str_equal(n, "o") || str_equal(n, "split") || str_equal(
            n,
            "sp",
        ) || str_equal(n, "vsplit") || str_equal(n, "vs") || str_equal(n, "close") || str_equal(
            n,
            "bc",
        ) || str_equal(n, "bclose") || str_equal(n, "help") || str_equal(n, "h")
    }

    /// The documentation line of the command, where one is recorded.
    pub fn description(&self) -> (r: Option<&'static str>)
        ensures
            match r {
                Some(d) => description_spec(self.name@) == Some(d@),
                None => description_spec(self.name@) is None,
            },
    {
        let n = self.name.as_str();
        if str_equal(n, "quit") || str_equal(n, "q") {
            Some("Close the current view.")
        } else if str_equal(n, "write") || str_equal(n, "w") {
            Some("Write changes to disk.")
        } else if str_equal(n, "goto") {
            Some("Goto line number.")
        } else if str_equal(n, "theme") {
            Some("Change the editor theme.")
        } else {
            None
        }
    }

    /// The command as text: the name, then each argument after one space.
    pub fn to_display_string(&self) -> (r: String)
        ensures
            r@ == display_spec(self@),
    {
        let mut s = self.name.clone();
        let mut i: usize = 0;
        while i < self.args.len()
            invariant
                i <= self.args.len(),
                s@ == display_spec(
                    ParsedCommandView {
                        name: self.name@,
                        args: strings_view(self.args@).subrange(0, i as int),
                    },
                ),
            decreases self.args.len() - i,
        {
            s.append(" ");
            s.append(self.args[i].as_str());
            proof {
                let p = ParsedCommandView {
                    name: self.name@,
                    args: strings_view(self.args@).subrange(0, i + 1),
                };
                assert(p.args.drop_last() =~= strings_view(self.args@).subrange(0, i as int));
                assert(p.args.last() == self.args@[i as int]@);
            }
            i = i + 1;
        }
        assert(strings_view(self.args@).subrange(0, self.args.len() as int) =~= strings_view(
            self.args@,
        ));
        s
    }

    /// A copy of the command.
    pub fn duplicate(&self) -> (r: ParsedCommand)
        ensures
            r@ == self@,
    {
        ParsedCommand { name: self.name.clone(), args: copy_strings(&self.args) }
    }
}

/// The direction of a window split.
#[derive(Debug, Clone, Copy, PartialEq, Eq)]
pub enum SplitDirection {
    Horizontal,
    Vertical,
}

/// The commands that the editor interprets itself.
#[derive(Debug, Clone, PartialEq)]
pub enum Command {
    /// Quit the editor.
    Quit { force: bool },
    /// Write the current buffer, to the given path if there is one.
    Write { path: Option<String> },
    /// Write and quit.
    WriteQuit { force: bool },
    /// Go to a line.
    Goto { line: usize },
    /// Change the theme.
    Theme { name: String },
    /// Open a file.
    Open { path: String },
    /// Split the window.
    Split { direction: SplitDirection },
    /// Close the current window.
    Close { force: bool },
    /// Search in files.
    Search { pattern: String },
    /// Replace text.
    Replace { pattern: String, replacement: String },
    /// Show help.
    Help { topic: Option<String> },
    /// Any other command that exists.
    Generic(ParsedCommand),
}

/// A typed command with its texts as characters.
pub enum CommandView {
    Quit { force: bool },
    Write { path: Option<Seq<char>> },
    WriteQuit { force: bool },
    Goto { line: usize },
    Theme { name: Seq<char> },
    Open { path: Seq<char> },
    Split { direction: SplitDirection },
    Close { force: bool },
    Search { pattern: Seq<char> },
    Replace { pattern: Seq<char>, replacement: Seq<char> },
    Help { topic: Option<Seq<char>> },
    Generic(ParsedCommandView),
}

impl View for Command {
    type V = CommandView;

    open spec fn view(&self) -> CommandView {
        match self {
            Command::Quit { force } => CommandView::Quit { force: *force },
            Command::Write { path } => CommandView::Write { path: opt_string_view(*path) },
            Command::WriteQuit { force } => CommandView::WriteQuit { force: *force },
            Command::Goto { line } => CommandView::Goto { line: *line },
            Command::Theme { name } => CommandView::Theme { name: name@ },
            Command::Open { path } => CommandView::Open { path: path@ },
            Command::Split { direction } => CommandView::Split { direction: *direction },
            Command::Close { force } => CommandView::Close { force: *force },
            Command::Search { pattern } => CommandView::Search { pattern: pattern@ },
            Command::Replace { pattern, replacement } => CommandView::Replace {
                pattern: pattern@,
                replacement: replacement@,
            },
            Command::Help { topic } => CommandView::Help { topic: opt_string_view(*topic) },
            Command::Generic(p) => CommandView::Generic(p@),
        }
    }
}

/// Whether one of the arguments is `!`.
pub open spec fn has_force_flag(args: Seq<Seq<char>>) -> bool {
    exists|i: int| 0 <= i < args.len() && #[trigger] args[i] == "!"@
}

/// The first argument, if there is one.
pub open spec fn first_arg(args: Seq<Seq<char>>) -> Option<Seq<char>> {
    if args.len() > 0 {
        Some(args[0])
    } else {
        None
    }
}

/// What turning a parsed command into a typed one gives.
pub open spec fn from_parsed_spec(p: ParsedCommandView) -> Result<CommandView, CommandErrorView> {
    let n = p.name;
    if n == "q"@ || n == "quit"@ {
        Ok(CommandView::Quit { force: has_force_flag(p.args) })
    } else if n == "w"@ || n == "write"@ {
        Ok(CommandView::Write { path: first_arg(p.args) })
    } else if n == "wq"@ || n == "x"@ {
        Ok(CommandView::WriteQuit { force: has_force_flag(p.args) })
    } else if n == "goto"@ {
        if p.args.len() == 0 {
            Err(CommandErrorView::MissingLineNumber)
        } else {
            match parse_unsigned(p.args[0]) {
                Some(line) => Ok(CommandView::Goto { line }),
                None => Err(CommandErrorView::InvalidLineNumber),
            }
        }
    } else if n == "theme"@ {
        if p.args.len() == 0 {
            Err(CommandErrorView::MissingThemeName)
        } else {
            Ok(CommandView::Theme { name: p.args[0] })
        }
    } else if n == "o"@ || n == "open"@ {
        if p.args.len() == 0 {
            Err(CommandErrorView::MissingFilePath)
        } else {
            Ok(CommandView::Open { path: p.args[0] })
        }
    } else if n == "sp"@ || n == "split"@ {
        Ok(CommandView::Split { direction: SplitDirection::Horizontal })
    } else if n == "vs"@ || n == "vsplit"@ {
        Ok(CommandView::Split { direction: SplitDirection::Vertical })
    } else if n == "bc"@ || n == "bclose"@ || n == "close"@ {
        Ok(CommandView::Close { force: has_force_flag(p.args) })
    } else if n == "h"@ || n == "help"@ {
        Ok(CommandView::Help { topic: first_arg(p.args) })
    } else if is_known_command(n) {
        Ok(CommandView::Generic(p))
    } else {
        Err(CommandErrorView::UnknownCommand { name: n })
    }
}

/// The arguments that stand for a force flag.
pub open spec fn force_args(force: bool) -> Seq<Seq<char>> {
    if force {
        seq!["!"@]
    } else {
        seq![]
    }
}

/// The optional argument as an argument list.
pub open spec fn optional_args(o: Option<Seq<char>>) -> Seq<Seq<char>> {
    match o {
        Some(a) => seq![a],
        None => seq![],
    }
}

/// What turning a typed command back into a parsed one gives.
pub open spec fn to_parsed_spec(c: CommandView) -> ParsedCommandView {
    match c {
        CommandView::Quit { force } => ParsedCommandView { name: "quit"@, args: force_args(force) },
        CommandView::Write { path } => ParsedCommandView {
            name: "write"@,
            args: optional_args(path),
        },
        CommandView::WriteQuit { force } => ParsedCommandView {
            name: "wq"@,
            args: force_args(force),
        },
        CommandView::Goto { line } => ParsedCommandView {
            name: "goto"@,
            args: seq![decimal_text(line as nat)],
        },
        CommandView::Theme { name } => ParsedCommandView { name: "theme"@, args: seq![name] },
        CommandView::Open { path } => ParsedCommandView { name: "open"@, args: seq![path] },
        CommandView::Split { direction } => match direction {
            SplitDirection::Horizontal => ParsedCommandView { name: "split"@, args: seq![] },
            SplitDirection::Vertical => ParsedCommandView { name: "vsplit"@, args: seq![] },
        },
        CommandView::Close { force } => ParsedCommandView {
            name: "close"@,
            args: force_args(force),
        },
        CommandView::Search { pattern } => ParsedCommandView {
            name: "search"@,
            args: seq![pattern],
        },
        CommandView::Replace { pattern, replacement } => ParsedCommandView {
            name: "replace"@,
            args: seq![pattern, replacement],
        },
        CommandView::Help { topic } => ParsedCommandView {
            name: "help"@,
            args: optional_args(topic),
        },
        CommandView::Generic(p) => p,
    }
}

fn any_force_flag(args: &Vec<String>) -> (r: bool)
    ensures
        r == has_force_flag(strings_view(args@)),
{
    let mut i: usize = 0;
    while i < args.len()
        invariant
            i <= args.len(),
            forall|k: int| 0 <= k < i ==> args@[k]@ != "!"@,
        decreases args.len() - i,
    {
        if str_equal(args[i].as_str(), "!") {
            assert(strings_view(args@)[i as int] == "!"@);
            return true;
        }
        i = i + 1;
    }
    assert forall|k: int| 0 <= k < strings_view(args@).len() implies #[trigger] strings_view(
        args@,
    )[k] != "!"@ by {
        assert(strings_view(args@)[k] == args@[k]@);
    }
    false
}

fn first_string(args: &Vec<String>) -> (r: Option<String>)
    ensures
        opt_string_view(r) == first_arg(strings_view(args@)),
{
    if args.len() > 0 {
        Some(args[0].clone())
    } else {
        None
    }
}

fn force_arg_list(force: bool) -> (r: Vec<String>)
    ensures
        strings_view(r@) == force_args(force),
{
    let mut r: Vec<String> = Vec::new();
    if force {
        r.push(owned("!"));
    }
    assert(strings_view(r@) =~= force_args(force));
    r
}

fn optional_arg_list(o: &Option<String>) -> (r: Vec<String>)
    ensures
        strings_view(r@) == optional_args(opt_string_view(*o)),
{
    let mut r: Vec<String> = Vec::new();
    match o {
        Some(a) => r.push(a.clone()),
        None => {},
    }
    assert(strings_view(r@) =~= optional_args(opt_string_view(*o)));
    r
}

fn single_arg(a: String) -> (r: Vec<String>)
    ensures
        strings_view(r@) == seq![a@],
{
    let mut r: Vec<String> = Vec::new();
    r.push(a);
    assert(strings_view(r@) =~= seq![a@]);
    r
}

fn no_args() -> (r: Vec<String>)
    ensures
        strings_view(r@) == Seq::<Seq<char>>::empty(),
{
    let r: Vec<String> = Vec::new();
    assert(strings_view(r@) =~= Seq::<Seq<char>>::empty());
    r
}

impl Command {
    /// Turns a parsed command into a typed one.
    pub fn from_parsed(parsed: ParsedCommand) -> (r: Result<Command, CommandError>)
        ensures
            match r {
                Ok(c) => from_parsed_spec(parsed@) == Ok::<CommandView, CommandErrorView>(c@),
                Err(e) => from_parsed_spec(parsed@) == Err::<CommandView, CommandErrorView>(e@),
            },
    {
        let n = parsed.name.as_str();
        if str_equal(n, "q") || str_equal(n, "quit") {
            Ok(Command::Quit { force: any_force_flag(&parsed.args) })
        } else if str_equal(n, "w") || str_equal(n, "write") {
            Ok(Command::Write { path: first_string(&parsed.args) })
        } else if str_equal(n, "wq") || str_equal(n, "x") {
            Ok(Command::WriteQuit { force: any_force_flag(&parsed.args) })
        } else if str_equal(n, "goto") {
            if parsed.args.len() == 0 {
                Err(CommandError::MissingLineNumber)
            } else {
                let digits = chars_of(parsed.args[0].as_str());
                match parse_usize(digits.as_slice()) {
                    Some(line) => Ok(Command::Goto { line }),
                    None => Err(CommandError::InvalidLineNumber),
                }
            }
        } else if str_equal(n, "theme") {
            if parsed.args.len() == 0 {
                Err(CommandError::MissingThemeName)
            } else {
                Ok(Command::Theme { name: parsed.args[0].clone() })
            }
        } else if str_equal(n, "o") || str_equal(n, "open") {
            if parsed.args.len() == 0 {
                Err(CommandError::MissingFilePath)
            } else {
                Ok(Command::Open { path: parsed.args[0].clone() })
            }
        } else if str_equal(n, "sp") || str_equal(n, "split") {
            Ok(Command::Split { direction: SplitDirection::Horizontal })
        } else if str_equal(n, "vs") || str_equal(n, "vsplit") {
            Ok(Command::Split { direction: SplitDirection::Vertical })
        } else if str_equal(n, "bc") || str_equal(n, "bclose") || str_equal(n, "close") {
            Ok(Command::Close { force: any_force_flag(&parsed.args) })
        } else if str_equal(n, "h") || str_equal(n, "help") {
            Ok(Command::Help { topic: first_string(&parsed.args) })
        } else if parsed.command_exists() {
            Ok(Command::Generic(parsed))
        } else {
            Err(CommandError::UnknownCommand { name: parsed.name })
        }
    }

    /// Turns the command back into a parsed one, under its full name.
    pub fn to_parsed(&self) -> (r: ParsedCommand)
        ensures
            r@ == to_parsed_spec(self@),
    {
        match self {
            Command::Quit { force } => ParsedCommand {
                name: owned("quit"),
                args: force_arg_list(*force),
            },
            Command::Write { path } => ParsedCommand {
                name: owned("write"),
                args: optional_arg_list(path),
            },
            Command::WriteQuit { force } => ParsedCommand {
                name: owned("wq"),
                args: force_arg_list(*force),
            },
            Command::Goto { line } => ParsedCommand {
                name: owned("goto"),
                args: single_arg(usize_to_decimal(*line)),
            },
            Command::Theme { name } => ParsedCommand {
                name: owned("theme"),
                args: single_arg(name.clone()),
            },
            Command::Open { path } => ParsedCommand {
                name: owned("open"),
                args: single_arg(path.clone()),
            },
            Command::Split { direction } => match direction {
                SplitDirection::Horizontal => ParsedCommand {
                    name: owned("split"),
                    args: no_args(),
                },
                SplitDirection::Vertical => ParsedCommand {
                    name: owned("vsplit"),
                    args: no_args(),
                },
            },
            Command::Close { force } => ParsedCommand {
                name: owned("close"),
                args: force_arg_list(*force),
            },
            Command::Search { pattern } => ParsedCommand {
                name: owned("search"),
                args: single_arg(pattern.clone()),
            },
            Command::Replace { pattern, replacement } => {
                let mut args: Vec<String> = Vec::new();
                let first = pattern.clone();
                let second = replacement.clone();
                args.push(first);
                args.push(second);
                assert(args@[0]@ == pattern@);
                assert(args@[1]@ == replacement@);
                assert(strings_view(args@) =~= seq![pattern@, replacement@]);
                ParsedCommand { name: owned("replace"), args }
            },
            Command::Help { topic } => ParsedCommand {
                name: owned("help"),
                args: optional_arg_list(topic),
            },
            Command::Generic(parsed) => parsed.duplicate(),
        }
    }
}

/// The command names that the typed reading knows, with their lengths and
/// first characters, which tell any two of them apart.
proof fn lemma_command_names()
    ensures
        "q"@.len() == 1,
        "q"@[0] == 'q',
        "quit"@.len() == 4,
        "quit"@[0] == 'q',
        "w"@.len() == 1,
        "w"@[0] == 'w',
        "write"@.len() == 5,
        "write"@[0] == 'w',
        "wq"@.len() == 2,
        "wq"@[0] == 'w',
        "x"@.len() == 1,
        "x"@[0] == 'x',
        "goto"@.len() == 4,
        "goto"@[0] == 'g',
        "theme"@.len() == 5,
        "theme"@[0] == 't',
        "o"@.len() == 1,
        "o"@[0] == 'o',
        "open"@.len() == 4,
        "open"@[0] == 'o',
        "sp"@.len() == 2,
        "sp"@[0] == 's',
        "split"@.len() == 5,
        "split"@[0] == 's',
        "vs"@.len() == 2,
        "vs"@[0] == 'v',
        "vsplit"@.len() == 6,
        "vsplit"@[0] == 'v',
        "bc"@.len() == 2,
        "bc"@[0] == 'b',
        "bclose"@.len() == 6,
        "bclose"@[0] == 'b',
        "close"@.len() == 5,
        "close"@[0] == 'c',
        "h"@.len() == 1,
        "h"@[0] == 'h',
        "help"@.len() == 4,
        "help"@[0] == 'h',
{
    reveal_strlit("q");
    reveal_strlit("quit");
    reveal_strlit("w");
    reveal_strlit("write");
    reveal_strlit("wq");
    reveal_strlit("x");
    reveal_strlit("goto");
    reveal_strlit("theme");
    reveal_strlit("o");
    reveal_strlit("open");
    reveal_strlit("sp");
    reveal_strlit("split");
    reveal_strlit("vs");
    reveal_strlit("vsplit");
    reveal_strlit("bc");
    reveal_strlit("bclose");
    reveal_strlit("close");
    reveal_strlit("h");
    reveal_strlit("help");
}

/// Turning a typed command into a parsed one and back gives the same command,
/// for every command but searches, replacements and generic commands (whose
/// names the typed reading does not take back).
pub proof fn lemma_command_round_trip(c: CommandView)
    requires
        !(c is Search),
        !(c is Replace),
        !(c is Generic),
    ensures
        from_parsed_spec(to_parsed_spec(c)) == Ok::<CommandView, CommandErrorView>(c),
{
    lemma_command_names();
    assert(force_args(true)[0] == "!"@);
    match c {
        CommandView::Goto { line } => {
            lemma_parse_decimal_text(line);
        },
        _ => {},
    }
}

/// A typed command that reading a parsed command gives is never a search, a
/// replacement or a generic command, so it reads back from its own parsed
/// form: reading, writing back and reading again gives the first result.
pub proof fn lemma_from_parsed_is_stable(p: ParsedCommandView)
    requires
        from_parsed_spec(p) is Ok,
    ensures
        from_parsed_spec(to_parsed_spec(from_parsed_spec(p)->Ok_0)) == from_parsed_spec(p),
{
    lemma_command_names();
    lemma_command_round_trip(from_parsed_spec(p)->Ok_0);
}

/// Every abbreviation reads as its full command: with the same arguments,
/// `q` reads as `quit`, `w` as `write`, `x` as `wq`, `o` as `open`, `sp` as
/// `split`, `vs` as `vsplit`, `bc` and `close` as `bclose`, and `h` as
/// `help`. Whatever the arguments, `sp` and `split` split horizontally and
/// `vs` and `vsplit` vertically.
pub proof fn lemma_abbreviations_read_as_full_names(args: Seq<Seq<char>>)
    ensures
        from_parsed_spec(ParsedCommandView { name: "q"@, args }) == from_parsed_spec(ParsedCommandView { name: "quit"@, args }),
        from_parsed_spec(ParsedCommandView { name: "w"@, args }) == from_parsed_spec(ParsedCommandView { name: "write"@, args }),
        from_parsed_spec(ParsedCommandView { name: "x"@, args }) == from_parsed_spec(ParsedCommandView { name: "wq"@, args }),
        from_parsed_spec(ParsedCommandView { name: "o"@, args }) == from_parsed_spec(ParsedCommandView { name: "open"@, args }),
        from_parsed_spec(ParsedCommandView { name: "sp"@, args }) == from_parsed_spec(ParsedCommandView { name: "split"@, args }),
        from_parsed_spec(ParsedCommandView { name: "vs"@, args }) == from_parsed_spec(ParsedCommandView { name: "vsplit"@, args }),
        from_parsed_spec(ParsedCommandView { name: "bc"@, args }) == from_parsed_spec(ParsedCommandView { name: "bclose"@, args }),
        from_parsed_spec(ParsedCommandView { name: "close"@, args }) == from_parsed_spec(ParsedCommandView { name: "bclose"@, args }),
        from_parsed_spec(ParsedCommandView { name: "h"@, args }) == from_parsed_spec(ParsedCommandView { name: "help"@, args }),
        from_parsed_spec(ParsedCommandView { name: "sp"@, args }) == Ok::<CommandView, CommandErrorView>(
            CommandView::Split { direction: SplitDirection::Horizontal },
        ),
        from_parsed_spec(ParsedCommandView { name: "vs"@, args }) == Ok::<CommandView, CommandErrorView>(
            CommandView::Split { direction: SplitDirection::Vertical },
        ),
{
    lemma_command_names();
}

/// The command line that the editor's own command runner executes for a
/// typed command: the runner's name for it, then its arguments.
pub open spec fn command_line_spec(c: CommandView) -> Seq<char> {
    match c {
        CommandView::Quit { force } => if force { "quit !"@ } else { "quit"@ },
        CommandView::Write { path } => match path {
            Some(p) => "write "@ + p,
            None => "write"@,
        },
        CommandView::WriteQuit { force } => if force { "wq !"@ } else { "wq"@ },
        CommandView::Goto { line } => "goto "@ + decimal_text(line as nat),
        CommandView::Theme { name } => "theme "@ + name,
        CommandView::Open { path } => "open "@ + path,
        CommandView::Split { direction } => match direction {
            SplitDirection::Horizontal => "split"@,
            SplitDirection::Vertical => "vsplit"@,
        },
        CommandView::Close { force } => if force { "close !"@ } else { "close"@ },
        CommandView::Help { topic } => match topic {
            Some(t) => "help "@ + t,
            None => "help"@,
        },
        CommandView::Search { pattern } => "search "@ + pattern,
        CommandView::Replace { pattern, replacement } => "replace "@ + pattern + " "@ + replacement,
        CommandView::Generic(p) => display_spec(p),
    }
}

fn prefixed(prefix: &str, rest: &str) -> (r: String)
    ensures
        r@ == prefix@ + rest@,
{
    let mut s = owned(prefix);
    s.append(rest);
    s
}

impl Command {
    /// The command line that runs this command in the editor's command
    /// runner.
    pub fn command_line(&self) -> (r: String)
        ensures
            r@ == command_line_spec(self@),
    {
        match self {
            Command::Quit { force } => if *force { owned("quit !") } else { owned("quit") },
            Command::Write { path } => match path {
                Some(p) => prefixed("write ", p.as_str()),
                None => owned("write"),
            },
            Command::WriteQuit { force } => if *force { owned("wq !") } else { owned("wq") },
            Command::Goto { line } => {
                let n = usize_to_decimal(*line);
                prefixed("goto ", n.as_str())
            },
            Command::Theme { name } => prefixed("theme ", name.as_str()),
            Command::Open { path } => prefixed("open ", path.as_str()),
            Command::Split { direction } => match direction {
                SplitDirection::Horizontal => owned("split"),
                SplitDirection::Vertical => owned("vsplit"),
            },
            Command::Close { force } => if *force { owned("close !") } else { owned("close") },
            Command::Help { topic } => match topic {
                Some(t) => prefixed("help ", t.as_str()),
                None => owned("help"),
            },
            Command::Search { pattern } => prefixed("search ", pattern.as_str()),
            Command::Replace { pattern, replacement } => {
                let mut s = prefixed("replace ", pattern.as_str());
                s.append(" ");
                s.append(replacement.as_str());
                s
            },
            Command::Generic(p) => p.to_display_string(),
        }
    }
}

/// Whether a text is one word: not empty and without whitespace.
pub open spec fn is_word(w: Seq<char>) -> bool {
    w.len() > 0 && forall|i: int| 0 <= i < w.len() ==> !is_whitespace_char(#[trigger] w[i])
}

/// Whether a parsed command reads back from its text: its name is a word
/// that is not all numeric (which would read as a line number), and each
/// argument is a word.
pub open spec fn reads_back(p: ParsedCommandView) -> bool {
    &&& is_word(p.name)
    &&& !all_numeric(p.name)
    &&& forall|k: int| 0 <= k < p.args.len() ==> is_word(#[trigger] p.args[k])
}

/// `first` followed by each of `more` after a space.
spec fn spaced(first: Seq<char>, more: Seq<Seq<char>>) -> Seq<char>
    decreases more.len(),
{
    if more.len() == 0 {
        first
    } else {
        spaced(first, more.drop_last()) + " "@ + more.last()
    }
}

proof fn lemma_display_is_spaced(p: ParsedCommandView)
    ensures
        display_spec(p) == spaced(p.name, p.args),
    decreases p.args.len(),
{
    if p.args.len() > 0 {
        lemma_display_is_spaced(ParsedCommandView { name: p.name, args: p.args.drop_last() });
    }
}

/// A spaced text starts with its first word and ends with its last word.
proof fn lemma_spaced_ends(first: Seq<char>, more: Seq<Seq<char>>)
    ensures
        spaced(first, more).len() >= first.len(),
        spaced(first, more).subrange(0, first.len() as int) == first,
        more.len() > 0 ==> spaced(first, more).len() >= more.last().len()
            && spaced(first, more).subrange(
                spaced(first, more).len() - more.last().len(),
                spaced(first, more).len() as int,
            ) == more.last(),
        more.len() == 0 ==> spaced(first, more) == first,
    decreases more.len(),
{
    reveal_strlit(" ");
    if more.len() > 0 {
        lemma_spaced_ends(first, more.drop_last());
        let a = spaced(first, more.drop_last());
        let b = a + " "@ + more.last();
        assert(b.subrange(0, first.len() as int) =~= a.subrange(0, first.len() as int));
        assert(b.subrange(b.len() - more.last().len(), b.len() as int) =~= more.last());
    }
}

/// Spacing a first word and more words is the first word, a space, and the
/// rest spaced.
proof fn lemma_spaced_split(first: Seq<char>, more: Seq<Seq<char>>)
    requires
        more.len() > 0,
    ensures
        spaced(first, more) == first + " "@ + spaced(more[0], more.drop_first()),
    decreases more.len(),
{
    if more.len() == 1 {
        assert(more.drop_first() =~= Seq::<Seq<char>>::empty());
        assert(more.drop_last() =~= Seq::<Seq<char>>::empty());
        assert(more.last() == more[0]);
        assert(spaced(first, more.drop_last()) == first);
        assert(spaced(more[0], more.drop_first()) == more[0]);
    } else {
        lemma_spaced_split(first, more.drop_last());
        assert(more.drop_last()[0] == more[0]);
        assert(more.drop_last().drop_first() =~= more.drop_first().drop_last());
        assert(more.drop_first().last() == more.last());
        assert(spaced(first, more) =~= first + " "@ + spaced(more[0], more.drop_first()));
    }
}

/// Reading whitespace-free characters after a text extends its current word.
proof fn lemma_word_scan_append(x: Seq<char>, w: Seq<char>)
    requires
        forall|i: int| 0 <= i < w.len() ==> !is_whitespace_char(#[trigger] w[i]),
    ensures
        word_scan(x + w) == (word_scan(x).0, word_scan(x).1 + w),
    decreases w.len(),
{
    if w.len() == 0 {
        assert(x + w =~= x);
        assert(word_scan(x).1 + w =~= word_scan(x).1);
    } else {
        let v = w.drop_last();
        lemma_word_scan_append(x, v);
        assert((x + w).drop_last() =~= x + v);
        assert((x + w).last() == w.last());
        assert(!is_whitespace_char(w[w.len() - 1]));
        assert((word_scan(x).1 + v).push(w.last()) =~= word_scan(x).1 + w);
    }
}

/// Scanning words spaced by one space finds them all: the last one still
/// being read.
proof fn lemma_word_scan_spaced(first: Seq<char>, more: Seq<Seq<char>>)
    requires
        is_word(first),
        forall|k: int| 0 <= k < more.len() ==> is_word(#[trigger] more[k]),
    ensures
        word_scan(spaced(first, more)) == ((seq![first] + more).drop_last(), (seq![first] + more).last()),
    decreases more.len(),
{
    reveal_strlit(" ");
    if more.len() == 0 {
        lemma_word_scan_append(Seq::<char>::empty(), first);
        assert(Seq::<char>::empty() + first =~= first);
        assert(Seq::<char>::empty() + first =~= first);
        assert((seq![first] + more) =~= seq![first]);
        assert(word_scan(Seq::<char>::empty()) == (Seq::<Seq<char>>::empty(), Seq::<char>::empty()));
        assert(seq![first].drop_last() =~= Seq::<Seq<char>>::empty());
    } else {
        let prev = more.drop_last();
        assert forall|k: int| 0 <= k < prev.len() implies is_word(#[trigger] prev[k]) by {
            assert(prev[k] == more[k]);
        }
        lemma_word_scan_spaced(first, prev);
        let a = spaced(first, prev);
        let all0 = seq![first] + prev;
        let sp = a + " "@;
        assert(sp.drop_last() =~= a);
        assert(sp.last() == ' ');
        assert(is_whitespace_char(' '));
        assert(all0.last() == if prev.len() == 0 { first } else { prev.last() });
        if prev.len() > 0 {
            assert(prev.last() == prev[prev.len() - 1]);
            assert(is_word(prev[prev.len() - 1]));
        }
        assert(all0.last().len() > 0);
        assert(word_scan(sp) == (all0.drop_last().push(all0.last()), Seq::<char>::empty()));
        assert(all0.drop_last().push(all0.last()) =~= all0);
        let w = more.last();
        assert(is_word(more[more.len() - 1]));
        assert(w == more[more.len() - 1]);
        lemma_word_scan_append(sp, w);
        assert(Seq::<char>::empty() + w =~= w);
        assert(spaced(first, more) == sp + w);
        let all = seq![first] + more;
        assert(all.drop_last() =~= all0);
        assert(all.last() == w);
    }
}

/// The first space of a text that starts with a space-free part is right
/// after that part.
proof fn lemma_first_space_after(x: Seq<char>, y: Seq<char>)
    requires
        !x.contains(' '),
    ensures
        first_index_of(x + y, ' ') == x.len() + first_index_of(y, ' '),
    decreases x.len(),
{
    if x.len() == 0 {
        assert(x + y =~= y);
    } else {
        assert(x[0] != ' ');
        assert((x + y).drop_first() =~= x.drop_first() + y);
        assert forall|i: int| 0 <= i < x.drop_first().len() implies x.drop_first()[i] != ' ' by {
            assert(x.drop_first()[i] == x[i + 1]);
        }
        lemma_first_space_after(x.drop_first(), y);
    }
}

/// Parsing the text of a parsed command gives the command back, when its
/// name is a word that is not all numeric and each argument is a word.
pub proof fn lemma_parse_undoes_display(p: ParsedCommandView)
    requires
        reads_back(p),
    ensures
        parse_spec(display_spec(p)) == Ok::<ParsedCommandView, CommandErrorView>(p),
{
    reveal_strlit(" ");
    lemma_display_is_spaced(p);
    let d = display_spec(p);
    lemma_spaced_ends(p.name, p.args);
    // The text neither starts nor ends with whitespace.
    assert(d[0] == p.name[0]) by {
        assert(d.subrange(0, p.name.len() as int)[0] == d[0]);
    }
    assert(!is_whitespace_char(p.name[0]));
    assert(trim_start(d) == d);
    if p.args.len() == 0 {
        assert(d.last() == p.name[p.name.len() - 1]);
    } else {
        let w = p.args.last();
        assert(is_word(p.args[p.args.len() - 1]));
        assert(d.last() == d.subrange(d.len() - w.len(), d.len() as int)[w.len() - 1]);
        assert(d.last() == w[w.len() - 1]);
    }
    assert(trim_end(d) == d);
    assert(trim(d) == d);
    // The name is not all numeric, so neither is the text.
    let i = choose|i: int| 0 <= i < p.name.len() && !is_numeric_char(#[trigger] p.name[i]);
    assert(d[i] == d.subrange(0, p.name.len() as int)[i]);
    assert(!all_numeric(d));
    // The name has no space.
    assert(!p.name.contains(' ')) by {
        if p.name.contains(' ') {
            let j = choose|j: int| 0 <= j < p.name.len() && p.name[j] == ' ';
            assert(!is_whitespace_char(p.name[j]));
        }
    }
    if p.args.len() == 0 {
        assert(d == p.name);
        lemma_first_space_after(p.name, Seq::<char>::empty());
        assert(p.name + Seq::<char>::empty() =~= p.name);
        assert(first_index_of(d, ' ') == p.name.len());
        assert(d.subrange(0, p.name.len() as int) =~= p.name);
        assert(parse_spec(d) == Ok::<ParsedCommandView, CommandErrorView>(ParsedCommandView { name: p.name, args: seq![] }));
        assert(p.args =~= Seq::<Seq<char>>::empty());
    } else {
        lemma_spaced_split(p.name, p.args);
        let rest = spaced(p.args[0], p.args.drop_first());
        assert(d == p.name + (" "@ + rest)) by {
            assert(p.name + " "@ + rest =~= p.name + (" "@ + rest));
        }
        lemma_first_space_after(p.name, " "@ + rest);
        assert((" "@ + rest)[0] == ' ');
        assert(first_index_of(" "@ + rest, ' ') == 0);
        let k = p.name.len() as int;
        assert(d.subrange(0, k) =~= p.name);
        assert(d.subrange(k + 1, d.len() as int) =~= rest);
        assert(is_word(p.args[0]));
        assert forall|m: int| 0 <= m < p.args.drop_first().len() implies is_word(#[trigger] p.args.drop_first()[m]) by {
            assert(p.args.drop_first()[m] == p.args[m + 1]);
        }
        lemma_word_scan_spaced(p.args[0], p.args.drop_first());
        let all = seq![p.args[0]] + p.args.drop_first();
        assert(all =~= p.args);
        assert(p.args.last() == p.args[p.args.len() - 1]);
        assert(is_word(p.args[p.args.len() - 1]));
        assert(words(rest) == all.drop_last().push(all.last()));
        assert(all.drop_last().push(all.last()) =~= p.args);
        assert(first_index_of(d, ' ') == k);
        assert(k < d.len());
        assert(parse_spec(d) == Ok::<ParsedCommandView, CommandErrorView>(ParsedCommandView { name: p.name, args: words(rest) }));
    }
}

} // verus!
