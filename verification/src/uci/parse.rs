//! Reading UCI command lines.

use cozy_chess::Board;
use vstd::prelude::*;

use crate::chess::{
    after_move, board_from_fen, board_of_fen, start_board, legal_in, parse_move, start_position,
    try_play, uci_move_of,
};
use crate::span::{Span, NANOS_PER_MILLI};
use crate::text::{
    join_words, joined, lemma_words_after_word, parse_unsigned, same_text, split_words, texts,
    unsigned_of, white_space, words_of,
};

verus! {

/// A command from the GUI.
#[derive(Debug, PartialEq)]
pub enum Command {
    Uci,
    IsReady,
    SetOption { name: String, value: Option<String> },
    NewGame,
    /// The position to search, with the moves already played onto it.
    Position(Board),
    Go(Go),
    Stop,
    Quit,
    /// A command that is understood and calls for nothing: `debug`, `ponderhit`, `register`.
    Nothing,
}

/// The limits named by a `go`.
#[derive(Debug, PartialEq)]
pub struct Go {
    pub movetime: Option<Span>,
    pub white_time: Option<Span>,
    pub black_time: Option<Span>,
    pub white_increment: Option<Span>,
    pub black_increment: Option<Span>,
    pub moves_to_go: Option<u32>,
    pub depth: Option<u8>,
    pub nodes: Option<u64>,
    /// Moves to mate in, as `mate` asks.
    pub mate: Option<u8>,
    /// The moves the answer must come from, in UCI notation; empty allows every legal move.
    pub search_moves: Vec<String>,
    /// Whether the search runs until stopped, as `infinite` and `ponder` ask.
    pub infinite: bool,
}

/// A `Go` with its moves as texts.
pub struct GoView {
    pub movetime: Option<Span>,
    pub white_time: Option<Span>,
    pub black_time: Option<Span>,
    pub white_increment: Option<Span>,
    pub black_increment: Option<Span>,
    pub moves_to_go: Option<u32>,
    pub depth: Option<u8>,
    pub nodes: Option<u64>,
    pub mate: Option<u8>,
    pub search_moves: Seq<Seq<char>>,
    pub infinite: bool,
}

/// The texts of a list of strings.
pub open spec fn strings(list: Seq<String>) -> Seq<Seq<char>> {
    list.map_values(|s: String| s@)
}

impl View for Go {
    type V = GoView;

    open spec fn view(&self) -> GoView {
        GoView {
            movetime: self.movetime,
            white_time: self.white_time,
            black_time: self.black_time,
            white_increment: self.white_increment,
            black_increment: self.black_increment,
            moves_to_go: self.moves_to_go,
            depth: self.depth,
            nodes: self.nodes,
            mate: self.mate,
            search_moves: strings(self.search_moves@),
            infinite: self.infinite,
        }
    }
}

/// A `go` that names no limit.
pub open spec fn no_limits() -> GoView {
    GoView {
        movetime: None,
        white_time: None,
        black_time: None,
        white_increment: None,
        black_increment: None,
        moves_to_go: None,
        depth: None,
        nodes: None,
        mate: None,
        search_moves: seq![],
        infinite: false,
    }
}

impl Default for Go {
    fn default() -> (go: Go)
        ensures
            go@ == no_limits(),
    {
        let go = Go {
            movetime: None,
            white_time: None,
            black_time: None,
            white_increment: None,
            black_increment: None,
            moves_to_go: None,
            depth: None,
            nodes: None,
            mate: None,
            search_moves: Vec::new(),
            infinite: false,
        };
        assert(strings(go.search_moves@) == Seq::<Seq<char>>::empty());
        go
    }
}

/// A `Command` with its texts as sequences of characters.
pub enum CommandView {
    Uci,
    IsReady,
    SetOption { name: Seq<char>, value: Option<Seq<char>> },
    NewGame,
    Position(Board),
    Go(GoView),
    Stop,
    Quit,
    Nothing,
}

/// The text of an optional string.
pub open spec fn optional_text(value: Option<String>) -> Option<Seq<char>> {
    match value {
        Some(v) => Some(v@),
        None => None,
    }
}

impl View for Command {
    type V = CommandView;

    open spec fn view(&self) -> CommandView {
        match self {
            Command::Uci => CommandView::Uci,
            Command::IsReady => CommandView::IsReady,
            Command::SetOption { name, value } => CommandView::SetOption {
                name: name@,
                value: optional_text(*value),
            },
            Command::NewGame => CommandView::NewGame,
            Command::Position(board) => CommandView::Position(*board),
            Command::Go(go) => CommandView::Go(go@),
            Command::Stop => CommandView::Stop,
            Command::Quit => CommandView::Quit,
            Command::Nothing => CommandView::Nothing,
        }
    }
}

/// The view of an optional command.
pub open spec fn optional_command(command: Option<Command>) -> Option<CommandView> {
    match command {
        Some(c) => Some(c@),
        None => None,
    }
}

// ---------------------------------------------------------------------------------------------
// What a line means
// ---------------------------------------------------------------------------------------------

/// The command that the word `keyword`, followed by the words `rest`, makes, if any.
pub open spec fn command_of(keyword: Seq<char>, rest: Seq<Seq<char>>) -> Option<CommandView> {
    if keyword == "uci"@ {
        Some(CommandView::Uci)
    } else if keyword == "isready"@ {
        Some(CommandView::IsReady)
    } else if keyword == "ucinewgame"@ {
        Some(CommandView::NewGame)
    } else if keyword == "stop"@ {
        Some(CommandView::Stop)
    } else if keyword == "quit"@ {
        Some(CommandView::Quit)
    } else if keyword == "debug"@ || keyword == "ponderhit"@ || keyword == "register"@ {
        Some(CommandView::Nothing)
    } else if keyword == "setoption"@ {
        set_option_of(rest)
    } else if keyword == "position"@ {
        position_of(rest)
    } else if keyword == "go"@ {
        Some(CommandView::Go(go_of(rest)))
    } else {
        None
    }
}

/// The first command that the words from `words[i]` on make, each word that makes none being
/// dropped, as the UCI specification asks of unrecognised leading tokens.
pub open spec fn command_from(words: Seq<Seq<char>>, i: int) -> Option<CommandView>
    decreases words.len() - i,
{
    if i < 0 || i >= words.len() {
        None
    } else {
        match command_of(words[i], words.skip(i + 1)) {
            Some(command) => Some(command),
            None => command_from(words, i + 1),
        }
    }
}

/// The command that a line makes, if any.
pub open spec fn command_in_line(line: Seq<char>) -> Option<CommandView> {
    command_from(words_of(line), 0)
}

/// Whether `word` is one of the words that start a command.
pub open spec fn is_command_word(word: Seq<char>) -> bool {
    ||| word == "uci"@
    ||| word == "isready"@
    ||| word == "ucinewgame"@
    ||| word == "stop"@
    ||| word == "quit"@
    ||| word == "debug"@
    ||| word == "ponderhit"@
    ||| word == "register"@
    ||| word == "setoption"@
    ||| word == "position"@
    ||| word == "go"@
}

/// Reading a command from the words after a first word gives what reading it from the words
/// without that first word gives.
proof fn lemma_command_from_shifted(t: Seq<char>, words: Seq<Seq<char>>, i: int)
    requires
        0 <= i,
    ensures
        command_from(seq![t] + words, i + 1) == command_from(words, i),
    decreases words.len() - i,
{
    let all = seq![t] + words;
    if i < words.len() {
        assert(all[i + 1] == words[i]);
        assert(all.skip(i + 2) == words.skip(i + 1));
        lemma_command_from_shifted(t, words, i + 1);
    }
}

/// A line that starts with a word that is no command, and white space, reads as the rest of the
/// line: unrecognised leading words are dropped.
pub proof fn lemma_unrecognised_word_dropped(t: Seq<char>, gap: char, line: Seq<char>)
    requires
        t.len() > 0,
        forall|j: int| 0 <= j < t.len() ==> !white_space(#[trigger] t[j]),
        white_space(gap),
        !is_command_word(t),
    ensures
        command_in_line(t + seq![gap] + line) == command_in_line(line),
{
    lemma_words_after_word(t, gap, line);
    let words = words_of(line);
    assert((seq![t] + words)[0] == t);
    lemma_command_from_shifted(t, words, 0);
}

/// The first place where `word` stands in `words`.
pub open spec fn first_index(words: Seq<Seq<char>>, word: Seq<char>) -> Option<int>
    decreases words.len(),
{
    if words.len() == 0 {
        None
    } else if words[0] == word {
        Some(0)
    } else {
        match first_index(words.drop_first(), word) {
            Some(k) => Some(k + 1),
            None => None,
        }
    }
}

/// What `setoption name <name> [value <value>]` sets, from the words after `setoption`: the
/// name runs up to the first `value`, and both are joined by single spaces.
pub open spec fn set_option_of(rest: Seq<Seq<char>>) -> Option<CommandView> {
    if rest.len() == 0 || rest[0] != "name"@ {
        None
    } else {
        let tail = rest.drop_first();
        let (name, value) = match first_index(tail, "value"@) {
            Some(at) => (tail.take(at), Some(joined(tail.skip(at + 1)))),
            None => (tail, None),
        };
        if name.len() == 0 {
            None
        } else {
            Some(CommandView::SetOption { name: joined(name), value })
        }
    }
}

/// `board` with the moves `moves`, in UCI notation, played in turn; `None` as soon as one of
/// them is no move or is illegal where it comes.
pub open spec fn play_all(board: Board, moves: Seq<Seq<char>>) -> Option<Board>
    decreases moves.len(),
{
    if moves.len() == 0 {
        Some(board)
    } else {
        match uci_move_of(board, moves[0]) {
            Some(mv) => if legal_in(board, mv) {
                play_all(after_move(board, mv), moves.drop_first())
            } else {
                None
            },
            None => None,
        }
    }
}

/// Playing a list of moves is playing its first part and then, where that succeeds, the rest.
pub proof fn lemma_play_all_in_turn(board: Board, first: Seq<Seq<char>>, rest: Seq<Seq<char>>)
    ensures
        play_all(board, first + rest) == match play_all(board, first) {
            Some(played) => play_all(played, rest),
            None => None,
        },
    decreases first.len(),
{
    if first.len() > 0 {
        assert((first + rest).drop_first() == first.drop_first() + rest);
        assert((first + rest)[0] == first[0]);
        match uci_move_of(board, first[0]) {
            Some(mv) => if legal_in(board, mv) {
                lemma_play_all_in_turn(after_move(board, mv), first.drop_first(), rest);
            },
            None => {},
        }
    } else {
        assert(first + rest == rest);
    }
}

/// The board and the words after it that `position startpos|fen <6 fields> ...` names.
pub open spec fn base_of(rest: Seq<Seq<char>>) -> Option<(Board, Seq<Seq<char>>)> {
    if rest.len() == 0 {
        None
    } else if rest[0] == "startpos"@ {
        Some((start_board(), rest.drop_first()))
    } else if rest[0] == "fen"@ && rest.len() >= 7 {
        match board_of_fen(joined(rest.subrange(1, 7)), false) {
            Some(board) => Some((board, rest.skip(7))),
            None => None,
        }
    } else {
        None
    }
}

/// The position that `position startpos|fen <6 fields> [moves <move>...]` names, from the words
/// after `position`.
pub open spec fn position_of(rest: Seq<Seq<char>>) -> Option<CommandView> {
    match base_of(rest) {
        Some((board, tail)) => {
            if tail.len() == 0 {
                Some(CommandView::Position(board))
            } else if tail[0] == "moves"@ {
                match play_all(board, tail.drop_first()) {
                    Some(played) => Some(CommandView::Position(played)),
                    None => None,
                }
            } else {
                None
            }
        },
        None => None,
    }
}

/// The board a `position` command starts from: the initial position after `startpos`, the board
/// a FEN of six fields reads as after `fen`, and an empty `moves` list changes nothing. Each
/// further move word plays one more move on the board the words before it name: where it is a
/// legal move there, the position is the board after it; otherwise, or where the words before
/// name no position, there is none.
pub proof fn lemma_position_plays_each_move(
    start: Seq<Seq<char>>,
    moves: Seq<Seq<char>>,
    word: Seq<char>,
)
    requires
        start == seq!["startpos"@] || (start.len() == 7 && start[0] == "fen"@),
    ensures
        start == seq!["startpos"@] ==> position_of(start) == Some(
            CommandView::Position(start_board()),
        ),
        start[0] == "fen"@ ==> position_of(start) == match board_of_fen(
            joined(start.subrange(1, 7)),
            false,
        ) {
            Some(board) => Some(CommandView::Position(board)),
            None => None,
        },
        position_of(start + seq!["moves"@]) == position_of(start),
        position_of(start + seq!["moves"@] + moves + seq![word]) == match position_of(
            start + seq!["moves"@] + moves,
        ) {
            Some(CommandView::Position(board)) => match uci_move_of(board, word) {
                Some(mv) => if legal_in(board, mv) {
                    Some(CommandView::Position(after_move(board, mv)))
                } else {
                    None
                },
                None => None,
            },
            _ => None,
        },
{
    reveal_strlit("startpos");
    reveal_strlit("fen");
    reveal_strlit("moves");
    let n = start.len() as int;
    let listed = start + seq!["moves"@];
    let before = listed + moves;
    let after = before + seq![word];
    assert("startpos"@ != "fen"@) by {
        assert("startpos"@.len() == 8);
        assert("fen"@.len() == 3);
    }
    assert(start[0] == "startpos"@ ==> start.len() == 1);
    assert(start.skip(n).len() == 0);
    assert(listed.skip(n) == seq!["moves"@]);
    assert(before.skip(n) == seq!["moves"@] + moves);
    assert(after.skip(n) == seq!["moves"@] + (moves + seq![word]));
    assert((seq!["moves"@] + moves)[0] == "moves"@);
    assert((seq!["moves"@] + (moves + seq![word]))[0] == "moves"@);
    assert((seq!["moves"@] + moves).drop_first() == moves);
    assert((seq!["moves"@] + (moves + seq![word])).drop_first() == moves + seq![word]);
    assert(listed[0] == start[0] && before[0] == start[0] && after[0] == start[0]);
    if n == 7 {
        assert(listed.subrange(1, 7) == start.subrange(1, 7));
        assert(before.subrange(1, 7) == start.subrange(1, 7));
        assert(after.subrange(1, 7) == start.subrange(1, 7));
    } else {
        assert(start.drop_first() == start.skip(n));
        assert(listed.drop_first() == listed.skip(n));
        assert(before.drop_first() == before.skip(n));
        assert(after.drop_first() == after.skip(n));
    }
    match base_of(start) {
        Some((board, _)) => {
            lemma_play_all_in_turn(board, moves, seq![word]);
            match play_all(board, moves) {
                Some(played) => {
                    assert(seq![word].drop_first() == Seq::<Seq<char>>::empty());
                    assert(seq![word][0] == word);
                    match uci_move_of(played, word) {
                        Some(mv) => {
                            assert(play_all(after_move(played, mv), Seq::<Seq<char>>::empty())
                                == Some(after_move(played, mv)));
                        },
                        None => {},
                    }
                },
                None => {},
            }
        },
        None => {},
    }
}

/// Whether `word` is one of the keywords a `go` may name, each ending the argument list of the
/// one before.
pub open spec fn is_go_keyword_text(word: Seq<char>) -> bool {
    ||| word == "searchmoves"@
    ||| word == "ponder"@
    ||| word == "wtime"@
    ||| word == "btime"@
    ||| word == "winc"@
    ||| word == "binc"@
    ||| word == "movestogo"@
    ||| word == "depth"@
    ||| word == "nodes"@
    ||| word == "mate"@
    ||| word == "movetime"@
    ||| word == "infinite"@
}

/// The moves of a `searchmoves`: the words up to the next keyword of the `go`.
pub open spec fn moves_until_keyword(words: Seq<Seq<char>>) -> Seq<Seq<char>>
    decreases words.len(),
{
    if words.len() == 0 || is_go_keyword_text(words[0]) {
        seq![]
    } else {
        seq![words[0]] + moves_until_keyword(words.drop_first())
    }
}

/// Where the first keyword of a `go` stands in `words`, or the length of `words` where none does.
pub open spec fn first_keyword_index(words: Seq<Seq<char>>) -> int
    decreases words.len(),
{
    if words.len() == 0 || is_go_keyword_text(words[0]) {
        0
    } else {
        1 + first_keyword_index(words.drop_first())
    }
}

/// The moves of a `searchmoves` are the longest run of words, from the start, that holds no
/// keyword of the `go`.
pub proof fn lemma_search_moves_are_keyword_free_prefix(words: Seq<Seq<char>>)
    ensures
        0 <= first_keyword_index(words) <= words.len(),
        forall|j: int|
            0 <= j < first_keyword_index(words) ==> !is_go_keyword_text(#[trigger] words[j]),
        first_keyword_index(words) < words.len() ==> is_go_keyword_text(
            words[first_keyword_index(words)],
        ),
        moves_until_keyword(words) == words.take(first_keyword_index(words)),
    decreases words.len(),
{
    if words.len() > 0 && !is_go_keyword_text(words[0]) {
        let rest = words.drop_first();
        lemma_search_moves_are_keyword_free_prefix(rest);
        assert forall|j: int| 0 <= j < first_keyword_index(words) implies !is_go_keyword_text(
            #[trigger] words[j],
        ) by {
            if j > 0 {
                assert(words[j] == rest[j - 1]);
            }
        }
        assert(seq![words[0]] + rest.take(first_keyword_index(rest)) == words.take(
            first_keyword_index(words),
        ));
    } else {
        assert(words.take(0) == Seq::<Seq<char>>::empty());
    }
}

/// The span of a count of milliseconds, if `word` writes one.
pub open spec fn millis_of(word: Seq<char>) -> Option<Span> {
    match unsigned_of(word, u64::MAX as nat) {
        Some(ms) => Some(Span { nanos: (ms * NANOS_PER_MILLI) as u128 }),
        None => None,
    }
}

/// A number read for an integer type whose largest value is `max`.
pub open spec fn number_of(word: Seq<char>, max: nat) -> Option<nat> {
    unsigned_of(word, max)
}

/// The limits of a `go` once the keyword `words[i]` is read, each keyword taking the word after
/// it (or nothing, at the end) as its argument and setting its limit, a later one overriding an
/// earlier one.
pub open spec fn go_step(go: GoView, words: Seq<Seq<char>>, i: int) -> GoView {
    let keyword = words[i];
    let argument = if i + 1 < words.len() {
        words[i + 1]
    } else {
        seq![]
    };
    if keyword == "movetime"@ {
        GoView { movetime: millis_of(argument), ..go }
    } else if keyword == "wtime"@ {
        GoView { white_time: millis_of(argument), ..go }
    } else if keyword == "btime"@ {
        GoView { black_time: millis_of(argument), ..go }
    } else if keyword == "winc"@ {
        GoView { white_increment: millis_of(argument), ..go }
    } else if keyword == "binc"@ {
        GoView { black_increment: millis_of(argument), ..go }
    } else if keyword == "movestogo"@ {
        GoView {
            moves_to_go: match number_of(argument, u32::MAX as nat) {
                Some(n) => Some(n as u32),
                None => None,
            },
            ..go
        }
    } else if keyword == "depth"@ {
        GoView {
            depth: match number_of(argument, u8::MAX as nat) {
                Some(n) => Some(n as u8),
                None => None,
            },
            ..go
        }
    } else if keyword == "nodes"@ {
        GoView {
            nodes: match number_of(argument, u64::MAX as nat) {
                Some(n) => Some(n as u64),
                None => None,
            },
            ..go
        }
    } else if keyword == "mate"@ {
        GoView {
            mate: match number_of(argument, u8::MAX as nat) {
                Some(n) => Some(n as u8),
                None => None,
            },
            ..go
        }
    } else if keyword == "searchmoves"@ {
        GoView { search_moves: moves_until_keyword(words.skip(i + 1)), ..go }
    } else if keyword == "infinite"@ || keyword == "ponder"@ {
        GoView { infinite: true, ..go }
    } else {
        go
    }
}

/// The limits of a `go` once its first `n` words are read.
pub open spec fn go_upto(words: Seq<Seq<char>>, n: int) -> GoView
    decreases n,
{
    if n <= 0 {
        no_limits()
    } else {
        go_step(go_upto(words, n - 1), words, n - 1)
    }
}

/// The last place among the first `n` words where `keyword` stands.
pub open spec fn last_at(words: Seq<Seq<char>>, n: int, keyword: Seq<char>) -> Option<int>
    decreases n,
{
    if n <= 0 {
        None
    } else if words[n - 1] == keyword {
        Some(n - 1)
    } else {
        last_at(words, n - 1, keyword)
    }
}

/// The word after `words[i]`, or nothing at the end.
pub open spec fn argument_at(words: Seq<Seq<char>>, i: int) -> Seq<char> {
    if i + 1 < words.len() {
        words[i + 1]
    } else {
        seq![]
    }
}

/// The span that the last `keyword` among the first `n` words names, if any.
pub open spec fn last_millis(words: Seq<Seq<char>>, n: int, keyword: Seq<char>) -> Option<Span> {
    match last_at(words, n, keyword) {
        Some(i) => millis_of(argument_at(words, i)),
        None => None,
    }
}

/// The number, at most `max`, that the last `keyword` among the first `n` words names, if any.
pub open spec fn last_number(words: Seq<Seq<char>>, n: int, keyword: Seq<char>, max: nat) -> Option<
    nat,
> {
    match last_at(words, n, keyword) {
        Some(i) => number_of(argument_at(words, i), max),
        None => None,
    }
}

/// Each limit of a `go` is what the last occurrence of its keyword names (nothing where the
/// keyword is missing or its argument is unreadable); the moves are those after the last
/// `searchmoves`; and it runs until stopped where `infinite` or `ponder` occurs anywhere.
#[verifier::rlimit(100)]
pub proof fn lemma_go_reads_last_occurrences(words: Seq<Seq<char>>, n: int)
    requires
        0 <= n <= words.len(),
    ensures
        go_upto(words, n).movetime == last_millis(words, n, "movetime"@),
        go_upto(words, n).white_time == last_millis(words, n, "wtime"@),
        go_upto(words, n).black_time == last_millis(words, n, "btime"@),
        go_upto(words, n).white_increment == last_millis(words, n, "winc"@),
        go_upto(words, n).black_increment == last_millis(words, n, "binc"@),
        go_upto(words, n).moves_to_go == match last_number(
            words,
            n,
            "movestogo"@,
            u32::MAX as nat,
        ) {
            Some(v) => Some(v as u32),
            None => None,
        },
        go_upto(words, n).depth == match last_number(words, n, "depth"@, u8::MAX as nat) {
            Some(v) => Some(v as u8),
            None => None,
        },
        go_upto(words, n).nodes == match last_number(words, n, "nodes"@, u64::MAX as nat) {
            Some(v) => Some(v as u64),
            None => None,
        },
        go_upto(words, n).mate == match last_number(words, n, "mate"@, u8::MAX as nat) {
            Some(v) => Some(v as u8),
            None => None,
        },
        go_upto(words, n).search_moves == match last_at(words, n, "searchmoves"@) {
            Some(i) => moves_until_keyword(words.skip(i + 1)),
            None => seq![],
        },
        go_upto(words, n).infinite == (last_at(words, n, "infinite"@) is Some || last_at(
            words,
            n,
            "ponder"@,
        ) is Some),
    decreases n,
{
    reveal_strlit("movetime");
    reveal_strlit("wtime");
    reveal_strlit("btime");
    reveal_strlit("winc");
    reveal_strlit("binc");
    reveal_strlit("movestogo");
    reveal_strlit("depth");
    reveal_strlit("nodes");
    reveal_strlit("mate");
    reveal_strlit("searchmoves");
    reveal_strlit("infinite");
    reveal_strlit("ponder");
    if n > 0 {
        lemma_go_reads_last_occurrences(words, n - 1);
        assert(go_upto(words, n) == go_step(go_upto(words, n - 1), words, n - 1));
        assert(argument_at(words, n - 1) == (if n < words.len() {
            words[n]
        } else {
            seq![]
        }));
    }
}

/// The limits that the words after `go` name.
pub open spec fn go_of(rest: Seq<Seq<char>>) -> GoView {
    go_upto(rest, rest.len() as int)
}

// ---------------------------------------------------------------------------------------------
// Reading a line
// ---------------------------------------------------------------------------------------------

/// Reads a command line, dropping unrecognised leading tokens as the UCI specification requires.
pub fn parse(line: &str) -> (command: Option<Command>)
    ensures
        optional_command(command) == command_in_line(line@),
{
    let tokens = split_words(line);
    let n = tokens.len();
    let mut index: usize = 0;
    while index < n
        invariant
            n == tokens@.len(),
            texts(tokens@) == words_of(line@),
            index <= n,
            command_from(texts(tokens@), 0) == command_from(texts(tokens@), index as int),
        decreases n - index,
    {
        let command = command_at(tokens.as_slice(), index);
        if command.is_some() {
            return command;
        }
        index = index + 1;
    }
    None
}

/// The command that the word `tokens[index]` makes with the words after it, if any.
fn command_at(tokens: &[&str], index: usize) -> (command: Option<Command>)
    requires
        index < tokens@.len(),
    ensures
        optional_command(command) == command_of(
            texts(tokens@)[index as int],
            texts(tokens@).skip(index + 1),
        ),
{
    let keyword = tokens[index];
    let rest = index + 1;
    if same_text(keyword, "uci") {
        Some(Command::Uci)
    } else if same_text(keyword, "isready") {
        Some(Command::IsReady)
    } else if same_text(keyword, "ucinewgame") {
        Some(Command::NewGame)
    } else if same_text(keyword, "stop") {
        Some(Command::Stop)
    } else if same_text(keyword, "quit") {
        Some(Command::Quit)
    } else if same_text(keyword, "debug") || same_text(keyword, "ponderhit") || same_text(
        keyword,
        "register",
    ) {
        Some(Command::Nothing)
    } else if same_text(keyword, "setoption") {
        set_option(tokens, rest)
    } else if same_text(keyword, "position") {
        position(tokens, rest)
    } else if same_text(keyword, "go") {
        Some(Command::Go(go(tokens, rest)))
    } else {
        None
    }
}

/// Where `word` first stands at `k`, `first_index` finds it there; where it stands nowhere,
/// `first_index` finds nothing.
proof fn lemma_first_index(words: Seq<Seq<char>>, word: Seq<char>, k: int)
    requires
        0 <= k <= words.len(),
        forall|j: int| 0 <= j < k ==> words[j] != word,
        k < words.len() ==> words[k] == word,
    ensures
        k < words.len() ==> first_index(words, word) == Some(k),
        k == words.len() ==> first_index(words, word) is None,
    decreases k,
{
    if k > 0 {
        lemma_first_index(words.drop_first(), word, k - 1);
    }
}

/// Reads the tail of `setoption name <name> [value <value>]`, from `tokens[start]` on.
fn set_option(tokens: &[&str], start: usize) -> (command: Option<Command>)
    requires
        start <= tokens@.len(),
    ensures
        optional_command(command) == set_option_of(texts(tokens@).skip(start as int)),
{
    let n = tokens.len();
    let ghost rest = texts(tokens@).skip(start as int);
    if start >= n || !same_text(tokens[start], "name") {
        return None;
    }
    let ghost tail = rest.drop_first();
    assert(tail == texts(tokens@).skip(start + 1));
    let mut at = start + 1;
    while at < n && !same_text(tokens[at], "value")
        invariant
            start + 1 <= at <= n,
            n == tokens@.len(),
            tail == texts(tokens@).skip(start + 1),
            forall|j: int| 0 <= j < at - (start + 1) ==> tail[j] != "value"@,
        decreases n - at,
    {
        at = at + 1;
    }
    proof {
        lemma_first_index(tail, "value"@, at - (start + 1));
    }
    if at == start + 1 {
        return None;
    }
    assert(tail.take(at - (start + 1)) == texts(tokens@).subrange(start + 1, at as int));
    let name = join_words(tokens, start + 1, at);
    let value = if at < n {
        assert(tail.skip(at - (start + 1) + 1) == texts(tokens@).subrange(at + 1, n as int));
        Some(join_words(tokens, at + 1, n))
    } else {
        assert(tail == texts(tokens@).subrange(start + 1, at as int));
        None
    };
    Some(Command::SetOption { name, value })
}

/// Reads the tail of `position startpos|fen <6 fields> [moves <move>...]`, from `tokens[start]`
/// on.
fn position(tokens: &[&str], start: usize) -> (command: Option<Command>)
    requires
        start <= tokens@.len(),
    ensures
        optional_command(command) == position_of(texts(tokens@).skip(start as int)),
{
    let n = tokens.len();
    let ghost words = texts(tokens@);
    let ghost rest = words.skip(start as int);
    if start >= n {
        return None;
    }
    let keyword = tokens[start];
    let mut board;
    let moves_from;
    if same_text(keyword, "startpos") {
        board = start_position();
        moves_from = start + 1;
        assert(rest.drop_first() == words.skip(start + 1));
    } else if same_text(keyword, "fen") {
        if n - start < 7 {
            return None;
        }
        assert(rest.subrange(1, 7) == words.subrange(start + 1, start + 7));
        let fen = join_words(tokens, start + 1, start + 7);
        match board_from_fen(fen.as_str(), false) {
            Some(found) => {
                board = found;
                moves_from = start + 7;
                assert(rest.skip(7) == words.skip(start + 7));
            },
            None => {
                return None;
            },
        }
    } else {
        return None;
    }
    assert(base_of(rest) == Some((board, words.skip(moves_from as int))));
    if moves_from < n {
        if !same_text(tokens[moves_from], "moves") {
            return None;
        }
        let mut i = moves_from + 1;
        assert(words.skip(moves_from as int).drop_first() == words.subrange(i as int, n as int));
        assert(words.skip(moves_from as int)[0] == "moves"@);
        while i < n
            invariant
                moves_from < i <= n,
                n == tokens@.len(),
                words == texts(tokens@),
                rest == texts(tokens@).skip(start as int),
                position_of(rest) == match play_all(board, words.subrange(i as int, n as int)) {
                    Some(played) => Some(CommandView::Position(played)),
                    None => None,
                },
            decreases n - i,
        {
            let ghost remaining = words.subrange(i as int, n as int);
            assert(remaining.drop_first() == words.subrange(i + 1, n as int));
            assert(remaining[0] == tokens@[i as int]@);
            match parse_move(&board, tokens[i]) {
                Some(played) => {
                    if !try_play(&mut board, played) {
                        return None;
                    }
                },
                None => {
                    return None;
                },
            }
            i = i + 1;
        }
        assert(words.subrange(n as int, n as int).len() == 0);
    } else {
        assert(words.skip(moves_from as int).len() == 0);
    }
    Some(Command::Position(board))
}

/// Whether `word` is one of the keywords a `go` may name.
fn is_go_keyword(word: &str) -> (r: bool)
    ensures
        r == is_go_keyword_text(word@),
{
    same_text(word, "searchmoves") || same_text(word, "ponder") || same_text(word, "wtime")
        || same_text(word, "btime") || same_text(word, "winc") || same_text(word, "binc")
        || same_text(word, "movestogo") || same_text(word, "depth") || same_text(word, "nodes")
        || same_text(word, "mate") || same_text(word, "movetime") || same_text(word, "infinite")
}

/// Reads the tail of a `go`, from `tokens[start]` on, keeping the limits it names.
fn go(tokens: &[&str], start: usize) -> (go: Go)
    requires
        start <= tokens@.len(),
    ensures
        go@ == go_of(texts(tokens@).skip(start as int)),
{
    let n = tokens.len();
    let ghost rest = texts(tokens@).skip(start as int);
    let mut go = Go::default();
    let mut i = start;
    while i < n
        invariant
            start <= i <= n,
            n == tokens@.len(),
            rest == texts(tokens@).skip(start as int),
            go@ == go_upto(rest, i - start),
        decreases n - i,
    {
        let keyword = tokens[i];
        proof {
            reveal_strlit("");
        }
        let argument = if i + 1 < n {
            tokens[i + 1]
        } else {
            ""
        };
        assert(keyword@ == rest[i - start]);
        assert(argument@ == (if (i - start) + 1 < rest.len() {
            rest[(i - start) + 1]
        } else {
            seq![]
        }));
        let ghost before = go@;
        if same_text(keyword, "movetime") {
            go.movetime = millis(argument);
        } else if same_text(keyword, "wtime") {
            go.white_time = millis(argument);
        } else if same_text(keyword, "btime") {
            go.black_time = millis(argument);
        } else if same_text(keyword, "winc") {
            go.white_increment = millis(argument);
        } else if same_text(keyword, "binc") {
            go.black_increment = millis(argument);
        } else if same_text(keyword, "movestogo") {
            go.moves_to_go = match parse_unsigned(argument, u32::MAX as u64) {
                Some(v) => Some(v as u32),
                None => None,
            };
        } else if same_text(keyword, "depth") {
            go.depth = match parse_unsigned(argument, u8::MAX as u64) {
                Some(v) => Some(v as u8),
                None => None,
            };
        } else if same_text(keyword, "nodes") {
            go.nodes = parse_unsigned(argument, u64::MAX);
        } else if same_text(keyword, "mate") {
            go.mate = match parse_unsigned(argument, u8::MAX as u64) {
                Some(v) => Some(v as u8),
                None => None,
            };
        } else if same_text(keyword, "searchmoves") {
            assert(rest.skip((i - start) + 1) == texts(tokens@).skip(i + 1));
            go.search_moves = search_moves(tokens, i + 1);
        } else if same_text(keyword, "infinite") || same_text(keyword, "ponder") {
            go.infinite = true;
        }
        assert(go@ == go_step(before, rest, i - start));
        i = i + 1;
    }
    go
}

/// Reads the moves of a `searchmoves`, from `tokens[start]` up to the next keyword of the `go`.
fn search_moves(tokens: &[&str], start: usize) -> (moves: Vec<String>)
    requires
        start <= tokens@.len(),
    ensures
        strings(moves@) == moves_until_keyword(texts(tokens@).skip(start as int)),
{
    let n = tokens.len();
    let ghost words = texts(tokens@);
    let mut moves: Vec<String> = Vec::new();
    let mut i = start;
    while i < n && !is_go_keyword(tokens[i])
        invariant
            start <= i <= n,
            n == tokens@.len(),
            words == texts(tokens@),
            strings(moves@) + moves_until_keyword(words.skip(i as int)) == moves_until_keyword(
                words.skip(start as int),
            ),
        decreases n - i,
    {
        assert(words.skip(i as int).drop_first() == words.skip(i + 1));
        let ghost old_moves = moves@;
        moves.push(tokens[i].to_owned());
        assert(strings(moves@) == strings(old_moves).push(tokens@[i as int]@));
        assert(strings(moves@) + moves_until_keyword(words.skip(i + 1)) == strings(old_moves)
            + moves_until_keyword(words.skip(i as int)));
        i = i + 1;
    }
    assert(moves_until_keyword(words.skip(i as int)) == Seq::<Seq<char>>::empty());
    assert(strings(moves@) + Seq::<Seq<char>>::empty() == strings(moves@));
    moves
}

/// Reads a count of milliseconds.
fn millis(argument: &str) -> (span: Option<Span>)
    ensures
        span == millis_of(argument@),
{
    match parse_unsigned(argument, u64::MAX) {
        Some(ms) => Some(Span::from_millis(ms)),
        None => None,
    }
}

} // verus!
