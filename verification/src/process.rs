//! The llama-server processes in a process list.

use vstd::prelude::*;
use vstd::slice::slice_subrange;

use crate::number::{digits_number, read_digits};
use crate::text::{
    chars_of, contains, find, is_space, lemma_run_end, lines, mentions, occurs_at, position,
    rows, run_end, same, same_text, split_lines, split_words, text_of, texts, trim_start_char,
    without_leading, words, CharClass,
};
use crate::timing::text_view;

verus! {

/// What the command line of a llama-server says.
#[derive(Debug)]
pub struct LlamaServerInfo {
    pub model: String,
    pub params: Vec<(String, String)>,
    pub context_len: u32,
    pub n_parallel: u32,
    pub multimodal: bool,
    pub embedding: bool,
}

/// What the command line of a llama-server says, its log file included.
pub struct Server {
    pub model: Seq<char>,
    pub params: Seq<(Seq<char>, Seq<char>)>,
    pub context_len: nat,
    pub n_parallel: nat,
    pub log_file: Option<Seq<char>>,
    pub multimodal: bool,
    pub embedding: bool,
}

/// What a flag of the command line is for.
#[derive(Clone, Copy, Debug, PartialEq, Eq, Structural)]
pub enum Flag {
    Model,
    /// Listed with the value after it.
    Valued,
    /// Listed as on.
    Switch,
    Context,
    Parallel,
    LogFile,
    Projector,
    Embedding,
    Other,
}

// ---- command lines --------------------------------------------------------

pub open spec fn is_flag(arg: Seq<char>) -> bool {
    arg.len() > 0 && arg[0] == '-'
}

/// A flag that is listed with its value.
pub open spec fn is_valued(arg: Seq<char>) -> bool {
    ||| arg == "-ngl"@
    ||| arg == "-t"@
    ||| arg == "-tb"@
    ||| arg == "--top-k"@
    ||| arg == "--top-p"@
    ||| arg == "--repeat-penalty"@
    ||| arg == "--temp"@
    ||| arg == "--port"@
    ||| arg == "--cache-reuse"@
    ||| arg == "-fa"@
    ||| arg == "-ctk"@
    ||| arg == "-ctv"@
}

pub open spec fn flag_kind(arg: Seq<char>) -> Flag {
    if arg == "-m"@ {
        Flag::Model
    } else if is_valued(arg) {
        Flag::Valued
    } else if arg == "-c"@ {
        Flag::Context
    } else if arg == "-np"@ {
        Flag::Parallel
    } else if arg == "--cont-batching"@ || arg == "--cache-idle-slots"@ {
        Flag::Switch
    } else if arg == "--log-file"@ {
        Flag::LogFile
    } else if arg == "--mmproj"@ {
        Flag::Projector
    } else if arg == "--embedding"@ {
        Flag::Embedding
    } else {
        Flag::Other
    }
}

/// The value of the flag at `i`: the argument after it, if that is no flag.
pub open spec fn value_after(args: Seq<Seq<char>>, i: int) -> Option<Seq<char>> {
    if i + 1 < args.len() && !is_flag(args[i + 1]) {
        Some(args[i + 1])
    } else {
        None
    }
}

pub open spec fn shown_value(args: Seq<Seq<char>>, i: int) -> Seq<char> {
    match value_after(args, i) {
        Some(value) => value,
        None => "N/A"@,
    }
}

/// A flag as it is listed: without the dashes before it.
pub open spec fn listed_name(arg: Seq<char>) -> Seq<char> {
    trim_start_char(arg, '-')
}

/// What is known after the argument at `i`, and the argument to go on with.
pub open spec fn argument(args: Seq<Seq<char>>, i: int, known: Server) -> (Server, int) {
    let arg = args[i];
    let value = value_after(args, i);
    let shown = (listed_name(arg), shown_value(args, i));
    if !is_flag(arg) {
        (known, i + 1)
    } else {
        match flag_kind(arg) {
            Flag::Model => if i + 1 < args.len() {
                (Server { model: args[i + 1], ..known }, i + 2)
            } else {
                (known, i + 1)
            },
            Flag::Valued => (Server { params: known.params.push(shown), ..known }, i + 2),
            Flag::Switch => (
                Server { params: known.params.push((listed_name(arg), "on"@)), ..known },
                i + 1,
            ),
            Flag::Context => match value {
                Some(v) => (Server { context_len: digits_number(v), ..known }, i + 2),
                None => (known, i + 1),
            },
            Flag::Parallel => match value {
                Some(v) => (Server { n_parallel: digits_number(v), ..known }, i + 2),
                None => (known, i + 1),
            },
            Flag::LogFile => (
                Server {
                    params: known.params.push(shown),
                    log_file: Some(shown_value(args, i)),
                    ..known
                },
                i + 2,
            ),
            Flag::Projector => (
                Server { params: known.params.push(shown), multimodal: true, ..known },
                i + 2,
            ),
            Flag::Embedding => (Server { embedding: true, ..known }, i + 1),
            Flag::Other => (known, i + 1),
        }
    }
}

/// What is known after the arguments from `i` on.
pub open spec fn arguments(args: Seq<Seq<char>>, i: int, known: Server) -> Server
    decreases args.len() + 1 - i,
{
    if i < args.len() {
        let (next, j) = argument(args, i, known);
        arguments(args, j, next)
    } else {
        known
    }
}

/// What is known of a server before its arguments.
pub open spec fn unknown_server() -> Server {
    Server {
        model: seq![],
        params: seq![],
        context_len: 0,
        n_parallel: 1,
        log_file: None,
        multimodal: false,
        embedding: false,
    }
}

/// The position of the first argument, from `i` on, that names the server.
pub open spec fn server_word(args: Seq<Seq<char>>, i: int) -> int
    decreases args.len() - i,
{
    if i < args.len() && !contains(args[i], "llama-server"@) {
        server_word(args, i + 1)
    } else {
        i
    }
}

/// What a line of the process list says of the server that it runs.
pub open spec fn server_of(line: Seq<char>) -> Server {
    let args = words(line);
    arguments(args, server_word(args, 0) + 1, unknown_server())
}

/// A line of the process list that shows a llama-server.
pub open spec fn shows_server(line: Seq<char>) -> bool {
    contains(line, "llama-server"@) && !contains(line, "grep"@)
}

/// `s` with each `from` replaced, left to right.
pub open spec fn replace_all(s: Seq<char>, from: Seq<char>, to: Seq<char>) -> Seq<char>
    decreases s.len(),
{
    match find(s, from) {
        Some(at) => if from.len() > 0 && 0 <= at && at + from.len() <= s.len() {
            s.take(at) + to + replace_all(s.skip(at + from.len()), from, to)
        } else {
            s
        },
        None => s,
    }
}

/// A log file as a process names it, with the home directory in its place and
/// without tildes before it.
pub open spec fn resolved(log_file: Seq<char>, home: Seq<char>) -> Seq<char> {
    replace_all(trim_start_char(log_file, '~'), "$HOME"@, home)
}

/// A line that shows a server with a model.
pub open spec fn shows_model(line: Seq<char>) -> bool {
    shows_server(line) && server_of(line).model.len() > 0
}

/// A line that shows a server with a model that logs to `log_file`.
pub open spec fn logs_to(line: Seq<char>, log_file: Seq<char>, home: Seq<char>) -> bool {
    &&& shows_model(line)
    &&& server_of(line).log_file matches Some(own)
    &&& (resolved(own, home) == log_file || own == log_file)
}

/// The first server with a model, from line `i` on.
pub open spec fn first_server(all: Seq<Seq<char>>, i: int) -> Option<Server>
    decreases all.len() - i,
{
    if i >= all.len() {
        None
    } else if shows_model(all[i]) {
        Some(server_of(all[i]))
    } else {
        first_server(all, i + 1)
    }
}

/// The last server that logs to `log_file`.
pub open spec fn last_logging(all: Seq<Seq<char>>, log_file: Seq<char>, home: Seq<char>) -> Option<
    Server,
>
    decreases all.len(),
{
    if all.len() == 0 {
        None
    } else if logs_to(all.last(), log_file, home) {
        Some(server_of(all.last()))
    } else {
        last_logging(all.drop_last(), log_file, home)
    }
}

/// The server to watch: the last one that logs to the configured file, or the
/// first one where none is configured.
pub open spec fn watched_server(
    ps_text: Seq<char>,
    config_log_file: Option<Seq<char>>,
    home: Seq<char>,
) -> Option<Server> {
    match config_log_file {
        Some(log_file) => last_logging(lines(ps_text), log_file, home),
        None => first_server(lines(ps_text), 0),
    }
}

/// The server to watch where a log file is configured is one that logs to it,
/// and there is one if any line shows one; no later line does.
pub proof fn law_watched_server_logs(all: Seq<Seq<char>>, log_file: Seq<char>, home: Seq<char>)
    ensures
        match last_logging(all, log_file, home) {
            Some(server) => exists|i: int|
                0 <= i < all.len() && #[trigger] logs_to(all[i], log_file, home) && server
                    == server_of(all[i]) && forall|j: int|
                    i < j < all.len() ==> !#[trigger] logs_to(all[j], log_file, home),
            None => forall|i: int|
                0 <= i < all.len() ==> !#[trigger] logs_to(all[i], log_file, home),
        },
    decreases all.len(),
{
    if all.len() > 0 {
        let before = all.drop_last();
        let last = all.len() - 1;
        if logs_to(all.last(), log_file, home) {
            assert(logs_to(all[last], log_file, home));
        } else {
            law_watched_server_logs(before, log_file, home);
            match last_logging(before, log_file, home) {
                Some(server) => {
                    let i = choose|i: int|
                        0 <= i < before.len() && #[trigger] logs_to(before[i], log_file, home)
                            && server == server_of(before[i]) && forall|j: int|
                            i < j < before.len() ==> !#[trigger] logs_to(
                                before[j],
                                log_file,
                                home,
                            );
                    assert(logs_to(all[i], log_file, home));
                    assert forall|j: int| i < j < all.len() implies !#[trigger] logs_to(
                        all[j],
                        log_file,
                        home,
                    ) by {
                        if j < last {
                            assert(all[j] == before[j]);
                        }
                    }
                },
                None => {
                    assert forall|i: int| 0 <= i < all.len() implies !#[trigger] logs_to(
                        all[i],
                        log_file,
                        home,
                    ) by {
                        if i < last {
                            assert(all[i] == before[i]);
                        }
                    }
                },
            }
        }
    }
}

/// The server to watch where no log file is configured is the first with a
/// model, and there is one if any line shows one.
pub proof fn law_first_server_wins(all: Seq<Seq<char>>, from: int)
    requires
        0 <= from,
    ensures
        match first_server(all, from) {
            Some(server) => exists|i: int|
                from <= i < all.len() && #[trigger] shows_model(all[i]) && server == server_of(
                    all[i],
                ) && forall|j: int| from <= j < i ==> !#[trigger] shows_model(all[j]),
            None => forall|i: int| from <= i < all.len() ==> !#[trigger] shows_model(all[i]),
        },
    decreases all.len() - from,
{
    if from < all.len() {
        if !shows_model(all[from]) {
            law_first_server_wins(all, from + 1);
            match first_server(all, from + 1) {
                Some(server) => {
                    let i = choose|i: int|
                        from + 1 <= i < all.len() && #[trigger] shows_model(all[i]) && server
                            == server_of(all[i]) && forall|j: int|
                            from + 1 <= j < i ==> !#[trigger] shows_model(all[j]);
                    assert(shows_model(all[i]));
                },
                None => {},
            }
        }
    }
}

pub open spec fn params_view(params: Seq<(String, String)>) -> Seq<(Seq<char>, Seq<char>)> {
    Seq::new(params.len(), |i: int| (params[i].0@, params[i].1@))
}

/// What is known of a server, where its log file is known too.
pub open spec fn server_view(info: LlamaServerInfo, log_file: Option<Seq<char>>) -> Server {
    Server {
        model: info.model@,
        params: params_view(info.params@),
        context_len: info.context_len as nat,
        n_parallel: info.n_parallel as nat,
        log_file,
        multimodal: info.multimodal,
        embedding: info.embedding,
    }
}

/// `info` says of a server what `server` says, log file aside.
pub open spec fn describes(info: LlamaServerInfo, server: Server) -> bool {
    server_view(info, server.log_file) == server
}

/// A text without white space that stands in a line stands in one of its
/// words.
pub proof fn lemma_word_contains(line: Seq<char>, text: Seq<char>)
    requires
        contains(line, text),
        text.len() > 0,
        forall|i: int| 0 <= i < text.len() ==> !is_space(#[trigger] text[i]),
    ensures
        exists|i: int| 0 <= i < words(line).len() && contains(#[trigger] words(line)[i], text),
    decreases line.len(),
{
    let at = choose|i: int| occurs_at(line, text, i);
    assert forall|k: int| at <= k < at + text.len() implies !is_space(#[trigger] line[k]) by {
        assert(line.subrange(at, at + text.len())[k - at] == line[k]);
        assert(!is_space(text[k - at]));
    }
    let start = run_end(line, 0, CharClass::Space);
    lemma_run_end(line, 0, CharClass::Space);
    assert(start <= at) by {
        if at < start {
            assert(CharClass::Space.holds(line[at]));
        }
    }
    let end = run_end(line, start, CharClass::NotSpace);
    lemma_run_end(line, start, CharClass::NotSpace);
    assert(start < line.len());
    assert(start < end);
    let word = line.subrange(start, end);
    assert(words(line) == seq![word] + words(line.skip(end)));
    if at < end {
        assert(at + text.len() <= end) by {
            if end < at + text.len() {
                assert(!is_space(line[end]));
            }
        }
        assert(word.subrange(at - start, at - start + text.len()) =~= text);
        assert(occurs_at(word, text, at - start));
        assert(words(line)[0] == word);
    } else {
        let rest = line.skip(end);
        assert(rest.subrange(at - end, at - end + text.len()) =~= text);
        assert(occurs_at(rest, text, at - end));
        lemma_word_contains(rest, text);
        let i = choose|i: int| 0 <= i < words(rest).len() && contains(#[trigger] words(rest)[i], text);
        assert(words(line)[i + 1] == words(rest)[i]);
    }
}

/// A line that shows a server has a word that names it.
pub proof fn law_server_is_named(line: Seq<char>)
    requires
        shows_server(line),
    ensures
        0 <= server_word(words(line), 0) < words(line).len(),
        contains(words(line)[server_word(words(line), 0)], "llama-server"@),
{
    reveal_strlit("llama-server");
    lemma_word_contains(line, "llama-server"@);
    let i = choose|i: int|
        0 <= i < words(line).len() && contains(#[trigger] words(line)[i], "llama-server"@);
    lemma_server_word(words(line), 0, i);
}

proof fn lemma_server_word(args: Seq<Seq<char>>, from: int, i: int)
    requires
        0 <= from <= i < args.len(),
        contains(args[i], "llama-server"@),
    ensures
        from <= server_word(args, from) <= i,
        contains(args[server_word(args, from)], "llama-server"@),
    decreases i - from,
{
    if !contains(args[from], "llama-server"@) {
        lemma_server_word(args, from + 1, i);
    }
}

fn flag_of(arg: &[char]) -> (r: Flag)
    ensures
        r == flag_kind(arg@),
{
    if same(arg, "-m") {
        Flag::Model
    } else if same(arg, "-ngl") || same(arg, "-t") || same(arg, "-tb") || same(arg, "--top-k")
        || same(arg, "--top-p") || same(arg, "--repeat-penalty") || same(arg, "--temp") || same(
        arg,
        "--port",
    ) || same(arg, "--cache-reuse") || same(arg, "-fa") || same(arg, "-ctk") || same(arg, "-ctv") {
        Flag::Valued
    } else if same(arg, "-c") {
        Flag::Context
    } else if same(arg, "-np") {
        Flag::Parallel
    } else if same(arg, "--cont-batching") || same(arg, "--cache-idle-slots") {
        Flag::Switch
    } else if same(arg, "--log-file") {
        Flag::LogFile
    } else if same(arg, "--mmproj") {
        Flag::Projector
    } else if same(arg, "--embedding") {
        Flag::Embedding
    } else {
        Flag::Other
    }
}

fn flagged(arg: &[char]) -> (r: bool)
    ensures
        r == is_flag(arg@),
{
    arg.len() > 0 && arg[0] == '-'
}

/// Whether the flag at `i` has a value.
fn has_value(args: &Vec<Vec<char>>, i: usize) -> (r: bool)
    requires
        i < args@.len(),
    ensures
        r <==> value_after(rows(args@), i as int) is Some,
        r ==> i + 1 < args@.len() && value_after(rows(args@), i as int) == Some(args@[i + 1]@),
{
    let total: usize = args.len();
    i + 1 < total && !flagged(args[i + 1].as_slice())
}

fn value_text(args: &Vec<Vec<char>>, i: usize) -> (r: String)
    requires
        i < args@.len(),
    ensures
        r@ == shown_value(rows(args@), i as int),
{
    let total: usize = args.len();
    if i + 1 < total && has_value(args, i) {
        text_of(args[i + 1].as_slice())
    } else {
        "N/A".to_string()
    }
}

fn name_text(arg: &[char]) -> (r: String)
    ensures
        r@ == listed_name(arg@),
{
    text_of(without_leading(arg, CharClass::Is('-')))
}

/// The position of the first argument that names the server.
fn find_server_word(args: &Vec<Vec<char>>) -> (r: usize)
    ensures
        r == server_word(rows(args@), 0),
        r <= args@.len(),
{
    let mut i: usize = 0;
    while i < args.len() && !mentions(args[i].as_slice(), "llama-server")
        invariant
            i <= args@.len(),
            server_word(rows(args@), 0) == server_word(rows(args@), i as int),
        decreases args@.len() - i,
    {
        i += 1;
    }
    i
}

/// Two arguments on, or the end.
fn skip_two(i: usize, total: usize) -> (r: usize)
    requires
        i < total,
    ensures
        r == if i + 2 <= total {
            i + 2
        } else {
            total as int
        },
{
    if total - i >= 2 {
        i + 2
    } else {
        total
    }
}

/// What a line of the process list says of the server that it runs.
fn read_server(line: &[char]) -> (r: (LlamaServerInfo, Option<String>))
    requires
        shows_server(line@),
    ensures
        server_view(r.0, text_view(r.1)) == server_of(line@),
{
    let args = split_words(line);
    proof {
        law_server_is_named(line@);
        assert(rows(args@).len() == args@.len());
    }
    let total: usize = args.len();
    let mut model = String::new();
    let mut params: Vec<(String, String)> = Vec::new();
    let mut context_len: u32 = 0;
    let mut n_parallel: u32 = 1;
    let mut log_file: Option<String> = None;
    let mut multimodal = false;
    let mut embedding = false;
    let mut i: usize = find_server_word(&args) + 1;
    proof {
        assert(params_view(params@) =~= seq![]);
    }
    while i < total
        invariant
            total == args@.len(),
            rows(args@) == words(line@),
            arguments(
                words(line@),
                i as int,
                Server {
                    model: model@,
                    params: params_view(params@),
                    context_len: context_len as nat,
                    n_parallel: n_parallel as nat,
                    log_file: text_view(log_file),
                    multimodal,
                    embedding,
                },
            ) == server_of(line@),
        decreases total + 1 - i,
    {
        let arg = args[i].as_slice();
        let ghost listed = params@;
        let ghost at = i as int;
        let ghost known = Server {
                model: model@,
                params: params_view(params@),
                context_len: context_len as nat,
                n_parallel: n_parallel as nat,
                log_file: text_view(log_file),
                multimodal,
                embedding,
            };
        proof {
            assert(words(line@)[i as int] == rows(args@)[i as int]);
            assert(i + 1 < total ==> words(line@)[i + 1] == rows(args@)[i + 1]);
        }
        if !flagged(arg) {
            i += 1;
        } else {
            match flag_of(arg) {
                Flag::Model => {
                    if i + 1 < total {
                        model = text_of(args[i + 1].as_slice());
                        i += 1;
                    }
                    i += 1;
                },
                Flag::Valued => {
                    params.push((name_text(arg), value_text(&args, i)));
                    proof {
                        assert(params_view(params@) =~= params_view(listed).push(
                            (listed_name(arg@), shown_value(words(line@), i as int)),
                        ));
                    }
                    i = skip_two(i, total);
                },
                Flag::Switch => {
                    params.push((name_text(arg), "on".to_string()));
                    proof {
                        assert(params_view(params@) =~= params_view(listed).push(
                            (listed_name(arg@), "on"@),
                        ));
                    }
                    i += 1;
                },
                Flag::Context => {
                    if has_value(&args, i) {
                        context_len = read_digits(args[i + 1].as_slice());
                        i += 1;
                    }
                    i += 1;
                },
                Flag::Parallel => {
                    if has_value(&args, i) {
                        n_parallel = read_digits(args[i + 1].as_slice());
                        i += 1;
                    }
                    i += 1;
                },
                Flag::LogFile => {
                    let value = value_text(&args, i);
                    params.push((name_text(arg), value.clone()));
                    log_file = Some(value);
                    proof {
                        assert(params_view(params@) =~= params_view(listed).push(
                            (listed_name(arg@), shown_value(words(line@), i as int)),
                        ));
                    }
                    i = skip_two(i, total);
                },
                Flag::Projector => {
                    multimodal = true;
                    params.push((name_text(arg), value_text(&args, i)));
                    proof {
                        assert(params_view(params@) =~= params_view(listed).push(
                            (listed_name(arg@), shown_value(words(line@), i as int)),
                        ));
                    }
                    i = skip_two(i, total);
                },
                Flag::Embedding => {
                    embedding = true;
                    i += 1;
                },
                Flag::Other => {
                    i += 1;
                },
            }
        }
        proof {
            let (next, j) = argument(words(line@), at, known);
            assert(next == Server {
                model: model@,
                params: params_view(params@),
                context_len: context_len as nat,
                n_parallel: n_parallel as nat,
                log_file: text_view(log_file),
                multimodal,
                embedding,
            });
            assert(arguments(words(line@), j, next) == server_of(line@));
        }
    }
    (LlamaServerInfo { model, params, context_len, n_parallel, multimodal, embedding }, log_file)
}

/// `s` with each `from` replaced, left to right.
fn replaced(s: &[char], from: &str, to: &str) -> (r: Vec<char>)
    requires
        from@.len() > 0,
    ensures
        r@ == replace_all(s@, from@, to@),
{
    let new = chars_of(to);
    let old_len: usize = chars_of(from).len();
    let total: usize = s.len();
    let mut r: Vec<char> = Vec::new();
    let mut done: usize = 0;
    proof {
        assert(s@.skip(0) =~= s@);
        assert(r@ + replace_all(s@, from@, to@) =~= replace_all(s@, from@, to@));
    }
    loop
        invariant
            total == s@.len(),
            done <= total,
            new@ == to@,
            old_len == from@.len(),
            old_len > 0,
            r@ + replace_all(s@.skip(done as int), from@, to@) == replace_all(s@, from@, to@),
        decreases total - done,
    {
        let rest = slice_subrange(s, done, total);
        let ghost before = r@;
        proof {
            assert(rest@ =~= s@.skip(done as int));
        }
        match position(rest, from) {
            Some(at) => {
                push_chars(&mut r, slice_subrange(rest, 0, at));
                push_chars(&mut r, new.as_slice());
                proof {
                    assert(rest@.subrange(0, at as int) =~= rest@.take(at as int));
                    assert(rest@.skip(at + old_len) =~= s@.skip(done + at + old_len));
                    let tail = replace_all(s@.skip(done + at + old_len), from@, to@);
                    assert(r@ + tail =~= before + (rest@.take(at as int) + to@ + tail));
                }
                done = done + at + old_len;
            },
            None => {
                push_chars(&mut r, rest);
                return r;
            },
        }
    }
}

fn push_chars(r: &mut Vec<char>, more: &[char])
    ensures
        final(r)@ == old(r)@ + more@,
{
    let mut i: usize = 0;
    while i < more.len()
        invariant
            i <= more@.len(),
            r@ == old(r)@ + more@.take(i as int),
        decreases more@.len() - i,
    {
        proof {
            assert(more@.take(i + 1) =~= more@.take(i as int).push(more@[i as int]));
        }
        r.push(more[i]);
        i += 1;
    }
    proof {
        assert(more@.take(more@.len() as int) =~= more@);
    }
}

fn is_server_line(line: &[char]) -> (r: bool)
    ensures
        r == shows_server(line@),
{
    mentions(line, "llama-server") && !mentions(line, "grep")
}

/// Whether a process that names its log file `own` logs to `log_file`.
fn same_log(own: &str, log_file: &str, home: &str) -> (r: bool)
    ensures
        r == (resolved(own@, home@) == log_file@ || own@ == log_file@),
{
    proof {
        reveal_strlit("$HOME");
    }
    let chars = chars_of(own);
    let bare = without_leading(chars.as_slice(), CharClass::Is('~'));
    let full = replaced(bare, "$HOME", home);
    same(full.as_slice(), log_file) || same(chars.as_slice(), log_file)
}

/// The server to watch, from the list of processes: the last one that logs to
/// the configured file, or the first one where none is configured. A server
/// without a model does not count.
pub fn get_llama_server_info(ps_text: &str, config_log_file: Option<&str>, home: &str) -> (r: Option<
    LlamaServerInfo,
>)
    ensures
        ({
            let watched = watched_server(
                ps_text@,
                match config_log_file {
                    Some(f) => Some(f@),
                    None => None,
                },
                home@,
            );
            match r {
                Some(info) => watched is Some && describes(info, watched->0),
                None => watched is None,
            }
        }),
{
    let chars = chars_of(ps_text);
    let all = split_lines(chars.as_slice());
    let mut found: Option<LlamaServerInfo> = None;
    let mut i: usize = 0;
    let ghost list = lines(ps_text@);
    proof {
        assert(rows(all@).len() == all@.len());
        assert(list.take(0).len() == 0);
    }
    while i < all.len()
        invariant
            i <= all@.len(),
            rows(all@) == list,
            list == lines(ps_text@),
            config_log_file is None ==> found is None && first_server(list, 0) == first_server(
                list,
                i as int,
            ),
            config_log_file matches Some(f) ==> match last_logging(
                list.take(i as int),
                f@,
                home@,
            ) {
                Some(server) => found is Some && describes(found->0, server),
                None => found is None,
            },
        decreases all@.len() - i,
    {
        proof {
            assert(list[i as int] == rows(all@)[i as int]);
            assert(list.take(i + 1).drop_last() =~= list.take(i as int));
            assert(list.take(i + 1).last() == list[i as int]);
        }
        let line = all[i].as_slice();
        if is_server_line(line) {
            let (info, own) = read_server(line);
            if !info.model.as_str().is_empty() {
                match config_log_file {
                    Some(log_file) => {
                        if let Some(own_file) = own {
                            if same_log(own_file.as_str(), log_file, home) {
                                found = Some(info);
                            }
                        }
                    },
                    None => {
                        return Some(info);
                    },
                }
            }
        }
        i += 1;
    }
    proof {
        assert(list.take(list.len() as int) =~= list);
    }
    found
}

// ---- embedding models -----------------------------------------------------

/// What the search for embedding models reads of a command line.
pub struct Embedder {
    pub model: Seq<char>,
    pub log_file: Option<Seq<char>>,
    pub embedding: bool,
}

/// What is known after the argument at `i`, and the argument to go on with.
/// Only the flags for the model, the log file and embedding count, and each
/// replaces what was known before.
pub open spec fn embedder_argument(args: Seq<Seq<char>>, i: int, known: Embedder) -> (
    Embedder,
    int,
) {
    let arg = args[i];
    if arg == "-m"@ {
        let model = if i + 1 < args.len() {
            args[i + 1]
        } else {
            seq![]
        };
        (
            Embedder { model, ..known },
            if model.len() > 0 {
                i + 2
            } else {
                i + 1
            },
        )
    } else if arg == "--log-file"@ {
        (Embedder { log_file: value_after(args, i), ..known }, i + 2)
    } else if arg == "--embedding"@ {
        (Embedder { embedding: true, ..known }, i + 1)
    } else {
        (known, i + 1)
    }
}

/// What is known after the arguments from `i` on.
pub open spec fn embedder_arguments(args: Seq<Seq<char>>, i: int, known: Embedder) -> Embedder
    decreases args.len() + 1 - i,
{
    if i < args.len() {
        let (next, j) = embedder_argument(args, i, known);
        embedder_arguments(args, j, next)
    } else {
        known
    }
}

/// What a line of the process list says of the server that it runs, as far as
/// embedding goes.
pub open spec fn embedder_of(line: Seq<char>) -> Embedder {
    let args = words(line);
    embedder_arguments(
        args,
        server_word(args, 0) + 1,
        Embedder { model: seq![], log_file: None, embedding: false },
    )
}

/// A line that shows a server with an embedding model, other than the server
/// that logs to the configured file.
pub open spec fn shows_embedding(line: Seq<char>, config_log_file: Option<Seq<char>>) -> bool {
    &&& shows_server(line)
    &&& embedder_of(line).embedding
    &&& embedder_of(line).model.len() > 0
    &&& !(config_log_file is Some && embedder_of(line).log_file == config_log_file)
}

/// The embedding models, in the order of the list.
pub open spec fn embedding_models(
    all: Seq<Seq<char>>,
    config_log_file: Option<Seq<char>>,
) -> Seq<Seq<char>>
    decreases all.len(),
{
    if all.len() == 0 {
        seq![]
    } else if shows_embedding(all.last(), config_log_file) {
        embedding_models(all.drop_last(), config_log_file).push(embedder_of(all.last()).model)
    } else {
        embedding_models(all.drop_last(), config_log_file)
    }
}

/// What a line says of the server that it runs, as far as embedding goes: the
/// model, the log file, and whether it embeds.
fn read_embedder(line: &[char]) -> (r: (String, Option<String>, bool))
    requires
        shows_server(line@),
    ensures
        r.0@ == embedder_of(line@).model,
        text_view(r.1) == embedder_of(line@).log_file,
        r.2 == embedder_of(line@).embedding,
{
    let args = split_words(line);
    proof {
        law_server_is_named(line@);
        assert(rows(args@).len() == args@.len());
        reveal_strlit("-m");
        reveal_strlit("--log-file");
        reveal_strlit("--embedding");
    }
    let total: usize = args.len();
    let mut model = String::new();
    let mut log_file: Option<String> = None;
    let mut embedding = false;
    let mut i: usize = find_server_word(&args) + 1;
    while i < total
        invariant
            total == args@.len(),
            rows(args@) == words(line@),
            embedder_arguments(
                words(line@),
                i as int,
                Embedder {
                    model: model@,
                    log_file: text_view(log_file),
                    embedding,
                },
            ) == embedder_of(line@),
        decreases total + 1 - i,
    {
        let arg = args[i].as_slice();
        let ghost at = i as int;
        let ghost known = Embedder {
                model: model@,
                log_file: text_view(log_file),
                embedding,
            };
        proof {
            assert(words(line@)[i as int] == rows(args@)[i as int]);
            assert(i + 1 < total ==> words(line@)[i + 1] == rows(args@)[i + 1]);
        }
        if same(arg, "-m") {
            model = if i + 1 < total {
                text_of(args[i + 1].as_slice())
            } else {
                String::new()
            };
            i = if !model.as_str().is_empty() {
                skip_two(i, total)
            } else {
                i + 1
            };
        } else if same(arg, "--log-file") {
            log_file = if has_value(&args, i) {
                Some(text_of(args[i + 1].as_slice()))
            } else {
                None
            };
            i = skip_two(i, total);
        } else if same(arg, "--embedding") {
            embedding = true;
            i += 1;
        } else {
            i += 1;
        }
        proof {
            let (next, j) = embedder_argument(words(line@), at, known);
            assert(next == Embedder {
                model: model@,
                log_file: text_view(log_file),
                embedding,
            });
            assert(embedder_arguments(words(line@), j, next) == embedder_of(line@));
        }
    }
    (model, log_file, embedding)
}

/// The models of the servers that embed, from the list of processes, without
/// the server that logs to the configured file. None where there are none.
pub fn get_embedding_models(ps_text: &str, config_log_file: Option<&str>) -> (r: Option<
    Vec<String>,
>)
    ensures
        ({
            let models = embedding_models(
                lines(ps_text@),
                match config_log_file {
                    Some(f) => Some(f@),
                    None => None,
                },
            );
            match r {
                Some(found) => models.len() > 0 && texts(found@) == models,
                None => models.len() == 0,
            }
        }),
{
    let chars = chars_of(ps_text);
    let all = split_lines(chars.as_slice());
    let mut models: Vec<String> = Vec::new();
    let mut i: usize = 0;
    let ghost list = lines(ps_text@);
    let ghost want = match config_log_file {
        Some(f) => Some(f@),
        None => None,
    };
    proof {
        assert(rows(all@).len() == all@.len());
        assert(list.take(0).len() == 0);
        assert(texts(models@) =~= seq![]);
    }
    while i < all.len()
        invariant
            i <= all@.len(),
            rows(all@) == list,
            list == lines(ps_text@),
            want == match config_log_file {
                Some(f) => Some(f@),
                None => None,
            },
            texts(models@) == embedding_models(list.take(i as int), want),
        decreases all@.len() - i,
    {
        let ghost before = models@;
        proof {
            assert(list[i as int] == rows(all@)[i as int]);
            assert(list.take(i + 1).drop_last() =~= list.take(i as int));
            assert(list.take(i + 1).last() == list[i as int]);
        }
        let line = all[i].as_slice();
        if is_server_line(line) {
            let (model, own, embeds) = read_embedder(line);
            let watched = match (config_log_file, own) {
                (Some(log_file), Some(own_file)) => same_text(own_file.as_str(), log_file),
                _ => false,
            };
            if embeds && !model.as_str().is_empty() && !watched {
                models.push(model);
                proof {
                    assert(texts(models@) =~= texts(before).push(
                        embedder_of(list[i as int]).model,
                    ));
                }
            }
        }
        i += 1;
    }
    proof {
        assert(list.take(list.len() as int) =~= list);
        assert(texts(models@).len() == models@.len());
    }
    if models.len() == 0 {
        None
    } else {
        Some(models)
    }
}

} // verus!
