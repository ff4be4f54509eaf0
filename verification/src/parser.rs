//! From a finished line to a pipeline: the line is cut at the pipe signs,
//! each piece is cut into words, the references to variables in the words
//! are replaced by their values, and the word that redirects the output is
//! taken out of the arguments.

use std::collections::VecDeque;
use vstd::prelude::*;
use regex::Regex;
use crate::buffer::EditBuffer;
use crate::environment::Environment;
use crate::history::History;
use crate::pattern::{compiles, pattern_of, replace_references, substituted, PatternError};
use crate::text::{
    chars_hold,
    is_space,
    is_whitespace,
    push_char,
    slice_to_string,
    split_on,
    split_seq,
    strings,
    to_chars,
};

verus! {

/// One command of a pipeline.
#[derive(Debug, PartialEq, Eq)]
pub struct Command {
    /// The program to run, or the name of a builtin. Empty when the piece of
    /// the line held no word.
    pub name: String,
    /// The arguments, in order.
    pub args: Vec<String>,
    /// The file that the output goes to. Empty when the output is not
    /// redirected.
    pub redirect_file: String,
}

/// What a `Command` holds.
pub struct CommandView {
    pub name: Seq<char>,
    pub args: Seq<Seq<char>>,
    pub redirect_file: Seq<char>,
}

impl View for Command {
    type V = CommandView;

    open spec fn view(&self) -> CommandView {
        CommandView { name: self.name@, args: strings(self.args@), redirect_file: self.redirect_file@ }
    }
}

impl Command {
    /// A command without a name, without arguments and without a
    /// redirection.
    pub fn new() -> (c: Command)
        ensures
            c@ == (CommandView {
                name: Seq::empty(),
                args: Seq::empty(),
                redirect_file: Seq::empty(),
            }),
    {
        let c = Command { name: String::new(), args: Vec::new(), redirect_file: String::new() };
        assert(strings(c.args@) =~= Seq::<Seq<char>>::empty());
        c
    }
}

/// How far the cutting of a line into words has come.
pub struct Scan {
    /// The words that are complete.
    pub done: Seq<Seq<char>>,
    /// The word that is being read.
    pub word: Seq<char>,
    /// Whether a double quote has been opened and not closed.
    pub quoted: bool,
}

/// The state of the cutting after all of `s` has been read. A double quote
/// opens or closes a quotation and is dropped. White space outside a
/// quotation ends the word before it. Every other character, and white
/// space within a quotation, goes into the word.
pub open spec fn scan(s: Seq<char>) -> Scan
    decreases s.len(),
{
    if s.len() == 0 {
        Scan { done: Seq::empty(), word: Seq::empty(), quoted: false }
    } else {
        let before = scan(s.drop_last());
        let c = s.last();
        if c == '"' {
            Scan { quoted: !before.quoted, ..before }
        } else if is_space(c) && !before.quoted {
            if before.word.len() > 0 {
                Scan { done: before.done.push(before.word), word: Seq::empty(), quoted: false }
            } else {
                before
            }
        } else {
            Scan { word: before.word.push(c), ..before }
        }
    }
}

/// The words of `s`. A quotation that is not closed runs to the end of
/// `s`.
pub open spec fn words(s: Seq<char>) -> Seq<Seq<char>> {
    let end = scan(s);
    if end.word.len() > 0 {
        end.done.push(end.word)
    } else {
        end.done
    }
}

/// Whether a word is whole: it has a character, and holds no double quote.
pub open spec fn whole(word: Seq<char>) -> bool {
    word.len() > 0 && !word.contains('"')
}

/// No word is empty, and no word holds a double quote.
pub proof fn lemma_words_whole(s: Seq<char>)
    ensures
        forall|i: int| 0 <= i < words(s).len() ==> whole(#[trigger] words(s)[i]),
        forall|i: int| 0 <= i < scan(s).done.len() ==> whole(#[trigger] scan(s).done[i]),
        !scan(s).word.contains('"'),
    decreases s.len(),
{
    if s.len() > 0 {
        let before = scan(s.drop_last());
        let c = s.last();
        lemma_words_whole(s.drop_last());
        if c != '"' && !(is_space(c) && !before.quoted) {
            let grown = before.word.push(c);
            assert forall|k: int| 0 <= k < grown.len() implies grown[k] != '"' by {
                if k < before.word.len() {
                    assert(before.word.contains(grown[k]));
                }
            }
        }
    }
}

/// Cuts `input` into words at white space. Text between double quotes
/// stays together, white space included, and the quotes are dropped.
pub fn split_user_input(input: &mut String) -> (tokens: Vec<String>)
    ensures
        strings(tokens@) == words(old(input)@),
        *final(input) == *old(input),
{
    let chars = to_chars(input.as_str());
    let mut done: Vec<String> = Vec::new();
    let mut word = String::new();
    let mut quoted = false;
    let mut i: usize = 0;
    proof {
        assert(chars@.take(0) =~= Seq::<char>::empty());
        assert(strings(done@) =~= Seq::<Seq<char>>::empty());
    }
    while i < chars.len()
        invariant
            i <= chars.len(),
            scan(chars@.take(i as int)) == (Scan { done: strings(done@), word: word@, quoted }),
        decreases chars.len() - i,
    {
        let c = chars[i];
        let ghost had = strings(done@);
        let ghost old_word = word@;
        proof {
            let now = chars@.take(i + 1);
            assert(now.drop_last() =~= chars@.take(i as int));
            assert(now.last() == c);
        }
        if c == '"' {
            quoted = !quoted;
        } else if is_whitespace(c) && !quoted {
            if word.as_str().unicode_len() > 0 {
                done.push(word);
                word = String::new();
                assert(strings(done@) =~= had.push(old_word));
            }
        } else {
            push_char(&mut word, c);
        }
        i += 1;
    }
    assert(chars@.take(chars.len() as int) =~= chars@);
    if word.as_str().unicode_len() > 0 {
        let ghost had = strings(done@);
        let ghost last_word = word@;
        done.push(word);
        assert(strings(done@) =~= had.push(last_word));
    }
    done
}

/// The index of the first string of `args` that holds `c`; the length of
/// `args` when none does.
pub open spec fn first_with(args: Seq<Seq<char>>, c: char) -> int
    decreases args.len(),
{
    if args.len() == 0 {
        0
    } else if args[0].contains(c) {
        0
    } else {
        1 + first_with(args.drop_first(), c)
    }
}

/// `first_with` finds the first string that holds the character.
pub proof fn lemma_first_with(args: Seq<Seq<char>>, c: char, i: int)
    requires
        0 <= i <= args.len(),
        forall|k: int| 0 <= k < i ==> !(#[trigger] args[k]).contains(c),
        i < args.len() ==> args[i].contains(c),
    ensures
        first_with(args, c) == i,
    decreases args.len(),
{
    if args.len() > 0 && i > 0 {
        assert(!args[0].contains(c));
        let rest = args.drop_first();
        assert forall|k: int| 0 <= k < i - 1 implies !(#[trigger] rest[k]).contains(c) by {
            assert(rest[k] == args[k + 1]);
        }
        lemma_first_with(rest, c, i - 1);
    }
}

/// The command that a list of words stands for. The first word is the
/// name, the others are the arguments. The first argument that holds `>`
/// is taken out: when it is `>` alone, the argument after it is taken out
/// too and names the file; else what follows its first character names the
/// file.
pub open spec fn command_of(tokens: Seq<Seq<char>>) -> CommandView {
    if tokens.len() == 0 {
        CommandView { name: Seq::empty(), args: Seq::empty(), redirect_file: Seq::empty() }
    } else {
        let args = tokens.skip(1);
        let i = first_with(args, '>');
        if i >= args.len() {
            CommandView { name: tokens[0], args, redirect_file: Seq::empty() }
        } else if args[i] == seq!['>'] {
            if i + 1 < args.len() {
                CommandView { name: tokens[0], args: args.take(i) + args.skip(i + 2), redirect_file: args[i + 1] }
            } else {
                CommandView { name: tokens[0], args: args.take(i), redirect_file: Seq::empty() }
            }
        } else {
            CommandView {
                name: tokens[0],
                args: args.take(i) + args.skip(i + 1),
                redirect_file: args[i].skip(1),
            }
        }
    }
}

/// Whether `s` holds the character `c`.
pub fn holds_char(s: &str, c: char) -> (b: bool)
    ensures
        b == s@.contains(c),
{
    let chars = to_chars(s);
    chars_hold(&chars, c)
}

impl Command {
    /// The command that a list of words stands for.
    pub fn from_tokens(tokens: Vec<String>) -> (c: Command)
        ensures
            c@ == command_of(strings(tokens@)),
    {
        let mut args = tokens;
        let ghost all = strings(args@);
        if args.len() == 0 {
            return Command::new();
        }
        let name = args.remove(0);
        assert(strings(args@) =~= all.skip(1));
        let mut i: usize = 0;
        while i < args.len() && !holds_char(args[i].as_str(), '>')
            invariant
                i <= args.len(),
                forall|k: int| 0 <= k < i ==> !(#[trigger] strings(args@)[k]).contains('>'),
            decreases args.len() - i,
        {
            i += 1;
        }
        proof {
            lemma_first_with(strings(args@), '>', i as int);
        }
        let ghost given = strings(args@);
        let mut redirect_file = String::new();
        if i < args.len() {
            let word = args.remove(i);
            let chars = to_chars(word.as_str());
            assert(strings(args@) =~= given.take(i as int) + given.skip(i + 1));
            if chars.len() == 1 {
                assert(word@ =~= seq!['>']) by {
                    let k = choose|k: int| 0 <= k < word@.len() && word@[k] == '>';
                    assert(k == 0);
                }
                if i < args.len() {
                    redirect_file = args.remove(i);
                    assert(strings(args@) =~= given.take(i as int) + given.skip(i + 2));
                } else {
                    assert(strings(args@) =~= given.take(i as int));
                }
            } else {
                assert(word@ != seq!['>']);
                assert(chars.len() >= 1) by {
                    let k = choose|k: int| 0 <= k < word@.len() && word@[k] == '>';
                }
                redirect_file = slice_to_string(&chars, 1, chars.len());
                assert(redirect_file@ =~= word@.skip(1));
            }
        }
        Command { name, args, redirect_file }
    }
}

/// The pattern of a reference to a variable: a dollar sign or a caret, and
/// the letters and digits that follow it.
pub const REFERENCE_PATTERN: &'static str = "[$^][A-Za-z0-9]+";

/// The words of `tokens` with each reference to a variable replaced by the
/// variable's value.
pub open spec fn expanded(tokens: Seq<Seq<char>>, pattern: Seq<char>, env: Map<Seq<char>, Seq<char>>) -> Seq<
    Seq<char>,
> {
    tokens.map_values(|w: Seq<char>| substituted(pattern, w, env))
}

/// The command that one piece of a line stands for: its words, with the
/// variables put in, read as a command.
pub open spec fn piece_command(piece: Seq<char>, pattern: Seq<char>, env: Map<Seq<char>, Seq<char>>)
    -> CommandView {
    command_of(expanded(words(piece), pattern, env))
}

/// The pipeline that a line stands for: no command for the empty line,
/// else one command for each piece between pipe signs, from left to right.
pub open spec fn pipeline_of(line: Seq<char>, pattern: Seq<char>, env: Map<Seq<char>, Seq<char>>) -> Seq<
    CommandView,
> {
    if line.len() == 0 {
        Seq::empty()
    } else {
        split_seq(line, '|').map_values(|piece: Seq<char>| piece_command(piece, pattern, env))
    }
}

/// What the commands of a pipeline hold.
pub open spec fn command_views(cmds: Seq<Command>) -> Seq<CommandView> {
    cmds.map_values(|c: Command| c@)
}

/// Replaces the references to variables in each of `tokens`.
fn expand_tokens(re: &Regex, tokens: &Vec<String>, env: &Environment) -> (r: Vec<String>)
    requires
        env.wf(),
    ensures
        strings(r@) == expanded(strings(tokens@), pattern_of(*re), env@),
{
    let mut r: Vec<String> = Vec::new();
    let mut i: usize = 0;
    while i < tokens.len()
        invariant
            i <= tokens.len(),
            env.wf(),
            strings(r@) == expanded(strings(tokens@).take(i as int), pattern_of(*re), env@),
        decreases tokens.len() - i,
    {
        let ghost had = strings(r@);
        let word = replace_references(re, tokens[i].as_str(), env);
        r.push(word);
        proof {
            assert(strings(r@) =~= had.push(word@));
            assert(strings(r@) =~= expanded(strings(tokens@).take(i + 1), pattern_of(*re), env@));
        }
        i += 1;
    }
    assert(strings(tokens@).take(tokens.len() as int) =~= strings(tokens@));
    r
}

/// Reads a finished line as a pipeline.
///
/// The empty line gives the empty pipeline. Any other line gives one
/// command for each of its pieces between pipe signs; a piece without a
/// word gives a command without a name. The only failure is that of the
/// pattern for references, which does not depend on the line.
pub fn parse_input(line: &str, env: &Environment) -> (r: Result<VecDeque<Command>, PatternError>)
    requires
        env.wf(),
    ensures
        r is Ok <==> line@.len() == 0 || compiles(REFERENCE_PATTERN@),
        r matches Ok(cmds) ==> command_views(cmds@) == pipeline_of(line@, REFERENCE_PATTERN@, env@),
{
    let mut cmds: VecDeque<Command> = VecDeque::new();
    if line.unicode_len() == 0 {
        assert(command_views(cmds@) =~= Seq::<CommandView>::empty());
        return Ok(cmds);
    }
    let re = match Regex::new(REFERENCE_PATTERN) {
        Ok(re) => re,
        Err(_) => {
            return Err(PatternError::Rejected);
        },
    };
    let pieces = split_on(line, '|');
    let mut i: usize = 0;
    assert(command_views(cmds@) =~= pipeline_of(line@, REFERENCE_PATTERN@, env@).take(0));
    while i < pieces.len()
        invariant
            i <= pieces.len(),
            env.wf(),
            line@.len() > 0,
            pattern_of(re) == REFERENCE_PATTERN@,
            strings(pieces@) == split_seq(line@, '|'),
            command_views(cmds@) == pipeline_of(line@, REFERENCE_PATTERN@, env@).take(i as int),
        decreases pieces.len() - i,
    {
        let ghost had = command_views(cmds@);
        let mut piece = pieces[i].clone();
        let tokens = split_user_input(&mut piece);
        let filled = expand_tokens(&re, &tokens, env);
        let command = Command::from_tokens(filled);
        let ghost view = command@;
        cmds.push_back(command);
        proof {
            assert(command_views(cmds@) =~= had.push(view));
            assert(view == piece_command(strings(pieces@)[i as int], REFERENCE_PATTERN@, env@));
            assert(command_views(cmds@) =~= pipeline_of(line@, REFERENCE_PATTERN@, env@).take(i + 1));
        }
        i += 1;
    }
    assert(pipeline_of(line@, REFERENCE_PATTERN@, env@).take(pieces.len() as int) =~= pipeline_of(
        line@,
        REFERENCE_PATTERN@,
        env@,
    ));
    Ok(cmds)
}

/// The index of the last character of `s` that is not white space; -1 when
/// there is none.
pub open spec fn last_solid(s: Seq<char>) -> int
    decreases s.len(),
{
    if s.len() == 0 {
        -1
    } else if !is_space(s.last()) {
        s.len() - 1
    } else {
        last_solid(s.drop_last())
    }
}

/// Whether the line asks for another one: its last character that is not
/// white space is a backslash.
pub open spec fn continues(line: Seq<char>) -> bool {
    last_solid(line) >= 0 && line[last_solid(line)] == '\\'
}

/// The index of the last character of `s` that is not white space, if
/// there is one.
fn find_last_solid(s: &Vec<char>) -> (r: Option<usize>)
    ensures
        r is None <==> last_solid(s@) == -1,
        r matches Some(i) ==> i == last_solid(s@) && i < s.len(),
{
    let mut i: usize = s.len();
    assert(s@.take(i as int) =~= s@);
    while i > 0 && is_whitespace(s[i - 1])
        invariant
            i <= s.len(),
            last_solid(s@) == last_solid(s@.take(i as int)),
        decreases i,
    {
        assert(s@.take(i as int).drop_last() =~= s@.take(i - 1));
        i -= 1;
    }
    if i == 0 {
        None
    } else {
        Some(i - 1)
    }
}

/// Takes in the first line that was entered.
///
/// An empty line is nothing: it is not recorded. Any other line is added
/// to the history. When it asks for another line, the text so far is the
/// line up to its closing backslash; else it is the line as it stands.
/// Returns the text so far and whether another line is asked for.
pub fn begin_line(line: String, history: &mut History) -> (r: (String, bool))
    requires
        old(history).wf(),
    ensures
        final(history).wf(),
        final(history).loaded == old(history).loaded,
        line@.len() == 0 ==> *final(history) == *old(history) && r.0@ == line@ && !r.1,
        line@.len() > 0 ==> final(history).entries() == old(history).entries().push(line@),
        r.1 == continues(line@),
        r.1 ==> r.0@ == line@.take(last_solid(line@)),
        !r.1 ==> r.0@ == line@,
{
    let chars = to_chars(line.as_str());
    if chars.len() == 0 {
        return (line, false);
    }
    history.add_to_string(line.clone());
    match find_last_solid(&chars) {
        Some(i) => {
            if chars[i] == '\\' {
                let text = slice_to_string(&chars, 0, i);
                assert(text@ =~= line@.take(i as int));
                (text, true)
            } else {
                (line, false)
            }
        },
        None => (line, false),
    }
}

/// Takes in one more line of a command that runs over several lines.
///
/// The line is added to the history. An empty line changes nothing, and
/// another line is asked for. A line that ends in a backslash is added to
/// the text without it, and another line is asked for. Any other line is
/// added to the text and completes it. Returns whether the text is
/// complete.
pub fn parse_multiline(text: &mut String, line: String, history: &mut History) -> (done: bool)
    requires
        old(history).wf(),
    ensures
        final(history).wf(),
        final(history).loaded == old(history).loaded,
        final(history).entries() == old(history).entries().push(line@),
        done == (line@.len() > 0 && line@.last() != '\\'),
        final(text)@ == old(text)@ + (if line@.len() > 0 && line@.last() == '\\' {
            line@.drop_last()
        } else {
            line@
        }),
{
    let chars = to_chars(line.as_str());
    let n = chars.len();
    if n > 0 && chars[n - 1] == '\\' {
        let kept = slice_to_string(&chars, 0, n - 1);
        assert(kept@ =~= line@.drop_last());
        text.append(kept.as_str());
        history.add_to_string(line);
        false
    } else {
        text.append(line.as_str());
        history.add_to_string(line);
        n > 0
    }
}

/// The cell that the cursor of the line being edited is on, as column and
/// row.
pub fn get_cursor_position(buffer: &EditBuffer) -> (pos: [u16; 2])
    ensures
        pos[0] == buffer.screen.col,
        pos[1] == buffer.screen.row,
{
    [buffer.screen.col, buffer.screen.row]
}

} // verus!
