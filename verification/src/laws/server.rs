//! Which server is found in a list of processes, and what is read of it.

use vstd::prelude::*;

use crate::number::parse_u32;
use crate::process::{
    argument, arguments, describes, first_server, flag_kind, get_llama_server_info, is_flag,
    is_valued, last_logging, law_first_server_wins, law_watched_server_logs, listed_name,
    logs_to, params_view, replace_all, resolved, server_of, server_word, shows_model,
    shows_server, unknown_server, watched_server, Flag, LlamaServerInfo, Server,
};
use crate::text::{
    contains, law_find_is_first, lemma_find_split, lemma_run_of, lemma_unbordered, lines, only,
    run_end, trim_start_char, words, CharClass,
};

verus! {

// ---- shapes ---------------------------------------------------------------

/// A flag that the argument after it can belong to, also where that is a flag.
pub open spec fn takes_next(arg: Seq<char>) -> bool {
    ||| arg == "-m"@
    ||| arg == "-ngl"@
    ||| arg == "-t"@
    ||| arg == "-tb"@
    ||| arg == "--top-k"@
    ||| arg == "--top-p"@
    ||| arg == "--repeat-penalty"@
    ||| arg == "--temp"@
    ||| arg == "--port"@
    ||| arg == "--cache-reuse"@
    ||| arg == "-fa"@
    ||| arg == "-ctk"@
    ||| arg == "-ctv"@
    ||| arg == "--log-file"@
    ||| arg == "--mmproj"@
}

/// `args` are the arguments of the one line of a process list that names a
/// llama-server, the first at `word`.
pub open spec fn server_args(
    ps_text: Seq<char>,
    row: int,
    args: Seq<Seq<char>>,
    word: int,
) -> bool {
    let all = lines(ps_text);
    &&& 0 <= row < all.len()
    &&& words(all[row]) == args
    &&& contains(all[row], "llama-server"@)
    &&& !contains(all[row], "grep"@)
    &&& forall|j: int|
        0 <= j < all.len() && j != row ==> !contains(#[trigger] all[j], "llama-server"@)
    &&& 0 <= word < args.len()
    &&& contains(args[word], "llama-server"@)
    &&& forall|j: int| 0 <= j < word ==> !contains(#[trigger] args[j], "llama-server"@)
}

/// The flag `flag` stands at `i`, and belongs to no flag before it.
pub open spec fn flag_at(args: Seq<Seq<char>>, word: int, i: int, flag: Seq<char>) -> bool {
    &&& word < i < args.len()
    &&& args[i] == flag
    &&& i == word + 1 || !takes_next(args[i - 1])
}

/// `flag` does not stand after `i`.
pub open spec fn no_later(args: Seq<Seq<char>>, i: int, flag: Seq<char>) -> bool {
    forall|j: int| i < j < args.len() ==> #[trigger] args[j] != flag
}

/// A name under which a flag is listed.
pub open spec fn listed_as(arg: Seq<char>, name: Seq<char>) -> bool {
    ||| arg == "-ngl"@ && name == "ngl"@
    ||| arg == "-t"@ && name == "t"@
    ||| arg == "-tb"@ && name == "tb"@
    ||| arg == "--top-k"@ && name == "top-k"@
    ||| arg == "--top-p"@ && name == "top-p"@
    ||| arg == "--repeat-penalty"@ && name == "repeat-penalty"@
    ||| arg == "--temp"@ && name == "temp"@
    ||| arg == "--port"@ && name == "port"@
    ||| arg == "--cache-reuse"@ && name == "cache-reuse"@
    ||| arg == "-fa"@ && name == "fa"@
    ||| arg == "-ctk"@ && name == "ctk"@
    ||| arg == "-ctv"@ && name == "ctv"@
    ||| arg == "--cont-batching"@ && name == "cont-batching"@
    ||| arg == "--cache-idle-slots"@ && name == "cache-idle-slots"@
    ||| arg == "--log-file"@ && name == "log-file"@
    ||| arg == "--mmproj"@ && name == "mmproj"@
}

/// The value with which the flag at `i` is listed: `on` for a switch; the
/// argument after it where that is no flag; `N/A` else.
pub open spec fn listed_value(args: Seq<Seq<char>>, i: int, value: Seq<char>) -> bool {
    if args[i] == "--cont-batching"@ || args[i] == "--cache-idle-slots"@ {
        value == "on"@
    } else if i + 1 < args.len() && !(args[i + 1].len() > 0 && args[i + 1][0] == '-') {
        value == args[i + 1]
    } else {
        value == "N/A"@
    }
}

// ---- lemmas ---------------------------------------------------------------

/// The flags are told apart.
proof fn lemma_flags()
    ensures
        flag_kind("-m"@) == Flag::Model,
        flag_kind("-c"@) == Flag::Context,
        flag_kind("-np"@) == Flag::Parallel,
        flag_kind("--cont-batching"@) == Flag::Switch,
        flag_kind("--cache-idle-slots"@) == Flag::Switch,
        flag_kind("--log-file"@) == Flag::LogFile,
        flag_kind("--mmproj"@) == Flag::Projector,
        flag_kind("--embedding"@) == Flag::Embedding,
        is_flag("-m"@) && is_flag("-c"@) && is_flag("-np"@) && is_flag("--log-file"@)
            && is_flag("--mmproj"@) && is_flag("--embedding"@) && is_flag("--cont-batching"@)
            && is_flag("--cache-idle-slots"@),
        forall|a: Seq<char>| #[trigger]
            is_valued(a) ==> flag_kind(a) == Flag::Valued && is_flag(a),
        forall|a: Seq<char>| #[trigger]
            takes_next(a) <==> a == "-m"@ || is_valued(a) || a == "--log-file"@ || a
                == "--mmproj"@,
{
    reveal_strlit("-m");
    reveal_strlit("-c");
    reveal_strlit("-np");
    reveal_strlit("-ngl");
    reveal_strlit("-t");
    reveal_strlit("-tb");
    reveal_strlit("--top-k");
    reveal_strlit("--top-p");
    reveal_strlit("--repeat-penalty");
    reveal_strlit("--temp");
    reveal_strlit("--port");
    reveal_strlit("--cache-reuse");
    reveal_strlit("-fa");
    reveal_strlit("-ctk");
    reveal_strlit("-ctv");
    reveal_strlit("--cont-batching");
    reveal_strlit("--cache-idle-slots");
    reveal_strlit("--log-file");
    reveal_strlit("--mmproj");
    reveal_strlit("--embedding");
    assert("-m"@.len() == 2 && "-m"@[0] == '-' && "-m"@[1] == 'm');
    assert("-c"@.len() == 2 && "-c"@[0] == '-' && "-c"@[1] == 'c');
    assert("-np"@.len() == 3 && "-np"@[0] == '-' && "-np"@[1] == 'n' && "-np"@[2] == 'p');
    assert("-ngl"@.len() == 4 && "-ngl"@[0] == '-' && "-ngl"@[1] == 'n' && "-ngl"@[2] == 'g'
        && "-ngl"@[3] == 'l');
    assert("-t"@.len() == 2 && "-t"@[0] == '-' && "-t"@[1] == 't');
    assert("-tb"@.len() == 3 && "-tb"@[0] == '-' && "-tb"@[1] == 't' && "-tb"@[2] == 'b');
    assert("--top-k"@.len() == 7 && "--top-k"@[0] == '-' && "--top-k"@[1] == '-'
        && "--top-k"@[2] == 't' && "--top-k"@[6] == 'k');
    assert("--top-p"@.len() == 7 && "--top-p"@[0] == '-' && "--top-p"@[1] == '-'
        && "--top-p"@[2] == 't' && "--top-p"@[6] == 'p');
    assert("--repeat-penalty"@.len() == 16 && "--repeat-penalty"@[0] == '-'
        && "--repeat-penalty"@[1] == '-' && "--repeat-penalty"@[2] == 'r'
        && "--repeat-penalty"@[15] == 'y');
    assert("--temp"@.len() == 6 && "--temp"@[0] == '-' && "--temp"@[1] == '-'
        && "--temp"@[2] == 't' && "--temp"@[5] == 'p');
    assert("--port"@.len() == 6 && "--port"@[0] == '-' && "--port"@[1] == '-'
        && "--port"@[2] == 'p' && "--port"@[5] == 't');
    assert("--cache-reuse"@.len() == 13 && "--cache-reuse"@[0] == '-'
        && "--cache-reuse"@[1] == '-' && "--cache-reuse"@[2] == 'c'
        && "--cache-reuse"@[12] == 'e');
    assert("-fa"@.len() == 3 && "-fa"@[0] == '-' && "-fa"@[1] == 'f' && "-fa"@[2] == 'a');
    assert("-ctk"@.len() == 4 && "-ctk"@[0] == '-' && "-ctk"@[1] == 'c' && "-ctk"@[2] == 't'
        && "-ctk"@[3] == 'k');
    assert("-ctv"@.len() == 4 && "-ctv"@[0] == '-' && "-ctv"@[1] == 'c' && "-ctv"@[2] == 't'
        && "-ctv"@[3] == 'v');
    assert("--cont-batching"@.len() == 15 && "--cont-batching"@[0] == '-'
        && "--cont-batching"@[1] == '-' && "--cont-batching"@[2] == 'c'
        && "--cont-batching"@[14] == 'g');
    assert("--cache-idle-slots"@.len() == 18 && "--cache-idle-slots"@[0] == '-'
        && "--cache-idle-slots"@[1] == '-' && "--cache-idle-slots"@[2] == 'c'
        && "--cache-idle-slots"@[17] == 's');
    assert("--log-file"@.len() == 10 && "--log-file"@[0] == '-' && "--log-file"@[1] == '-'
        && "--log-file"@[2] == 'l' && "--log-file"@[9] == 'e');
    assert("--mmproj"@.len() == 8 && "--mmproj"@[0] == '-' && "--mmproj"@[1] == '-'
        && "--mmproj"@[2] == 'm' && "--mmproj"@[7] == 'j');
    assert("--embedding"@.len() == 11 && "--embedding"@[0] == '-'
        && "--embedding"@[1] == '-' && "--embedding"@[2] == 'e' && "--embedding"@[10] == 'g');
}

/// A name without its dashes.
proof fn lemma_listed_name(arg: Seq<char>, dashes: int, name: Seq<char>)
    requires
        1 <= dashes <= 2,
        arg.len() == dashes + name.len(),
        name.len() > 0,
        name[0] != '-',
        arg[0] == '-',
        dashes == 2 ==> arg[1] == '-',
        arg.skip(dashes) =~= name,
    ensures
        listed_name(arg) == name,
{
    assert(arg.skip(dashes)[0] == name[0]);
    lemma_run_of(arg, 0, dashes, CharClass::Is('-'));
}

/// Every flag that is listed is listed under its name.
proof fn lemma_names()
    ensures
        forall|a: Seq<char>| #[trigger]
            is_valued(a) || a == "--cont-batching"@ || a == "--cache-idle-slots"@ || a
                == "--log-file"@ || a == "--mmproj"@ ==> listed_as(a, listed_name(a)),
        forall|a: Seq<char>, name: Seq<char>| #[trigger]
            listed_as(a, name) ==> name == listed_name(a),
{
    reveal_strlit("-ngl");
    reveal_strlit("ngl");
    lemma_listed_name("-ngl"@, 1, "ngl"@);
    reveal_strlit("-t");
    reveal_strlit("t");
    lemma_listed_name("-t"@, 1, "t"@);
    reveal_strlit("-tb");
    reveal_strlit("tb");
    lemma_listed_name("-tb"@, 1, "tb"@);
    reveal_strlit("--top-k");
    reveal_strlit("top-k");
    lemma_listed_name("--top-k"@, 2, "top-k"@);
    reveal_strlit("--top-p");
    reveal_strlit("top-p");
    lemma_listed_name("--top-p"@, 2, "top-p"@);
    reveal_strlit("--repeat-penalty");
    reveal_strlit("repeat-penalty");
    lemma_listed_name("--repeat-penalty"@, 2, "repeat-penalty"@);
    reveal_strlit("--temp");
    reveal_strlit("temp");
    lemma_listed_name("--temp"@, 2, "temp"@);
    reveal_strlit("--port");
    reveal_strlit("port");
    lemma_listed_name("--port"@, 2, "port"@);
    reveal_strlit("--cache-reuse");
    reveal_strlit("cache-reuse");
    lemma_listed_name("--cache-reuse"@, 2, "cache-reuse"@);
    reveal_strlit("-fa");
    reveal_strlit("fa");
    lemma_listed_name("-fa"@, 1, "fa"@);
    reveal_strlit("-ctk");
    reveal_strlit("ctk");
    lemma_listed_name("-ctk"@, 1, "ctk"@);
    reveal_strlit("-ctv");
    reveal_strlit("ctv");
    lemma_listed_name("-ctv"@, 1, "ctv"@);
    reveal_strlit("--cont-batching");
    reveal_strlit("cont-batching");
    lemma_listed_name("--cont-batching"@, 2, "cont-batching"@);
    reveal_strlit("--cache-idle-slots");
    reveal_strlit("cache-idle-slots");
    lemma_listed_name("--cache-idle-slots"@, 2, "cache-idle-slots"@);
    reveal_strlit("--log-file");
    reveal_strlit("log-file");
    lemma_listed_name("--log-file"@, 2, "log-file"@);
    reveal_strlit("--mmproj");
    reveal_strlit("mmproj");
    lemma_listed_name("--mmproj"@, 2, "mmproj"@);
}

/// The argument to go on with after the one at `i` is the next, or the one
/// after it.
proof fn lemma_step(args: Seq<Seq<char>>, i: int, known: Server)
    requires
        0 <= i < args.len(),
    ensures
        argument(args, i, known).1 == i + 1 || argument(args, i, known).1 == i + 2,
{
}

/// What is known when the flag at `i` is read.
proof fn lemma_reaches(args: Seq<Seq<char>>, from: int, known: Server, i: int) -> (k: Server)
    requires
        0 <= from <= i < args.len(),
        is_flag(args[i]),
        i == from || !takes_next(args[i - 1]),
    ensures
        arguments(args, from, known) == arguments(args, i, k),
    decreases i - from,
{
    lemma_flags();
    if from == i {
        known
    } else {
        let (next, j) = argument(args, from, known);
        lemma_step(args, from, known);
        assert(arguments(args, from, known) == arguments(args, j, next));
        if from == i - 1 {
            assert(j == i);
            next
        } else if j == i {
            next
        } else {
            lemma_reaches(args, j, next, i)
        }
    }
}

/// What the arguments from `from` on leave as it is.
proof fn lemma_keeps(args: Seq<Seq<char>>, from: int, known: Server)
    requires
        0 <= from,
    ensures
        ({
            let r = arguments(args, from, known);
            &&& known.embedding ==> r.embedding
            &&& known.multimodal ==> r.multimodal
            &&& no_later(args, from - 1, "--embedding"@) ==> r.embedding == known.embedding
            &&& no_later(args, from - 1, "--mmproj"@) ==> r.multimodal == known.multimodal
            &&& no_later(args, from - 1, "-m"@) ==> r.model == known.model
            &&& no_later(args, from - 1, "-c"@) ==> r.context_len == known.context_len
            &&& no_later(args, from - 1, "-np"@) ==> r.n_parallel == known.n_parallel
            &&& no_later(args, from - 1, "--log-file"@) ==> r.log_file == known.log_file
        }),
    decreases args.len() + 1 - from,
{
    lemma_flags();
    if from < args.len() {
        let (next, j) = argument(args, from, known);
        lemma_step(args, from, known);
        assert(arguments(args, from, known) == arguments(args, j, next));
        lemma_keeps(args, j, next);
        lemma_kind_of(args[from]);
        assert(no_later(args, from - 1, "-m"@) ==> args[from] != "-m"@);
    }
}

/// Only the flag itself is of its kind.
proof fn lemma_kind_of(a: Seq<char>)
    ensures
        flag_kind(a) == Flag::Model ==> a == "-m"@,
        flag_kind(a) == Flag::Context ==> a == "-c"@,
        flag_kind(a) == Flag::Parallel ==> a == "-np"@,
        flag_kind(a) == Flag::LogFile ==> a == "--log-file"@,
        flag_kind(a) == Flag::Projector ==> a == "--mmproj"@,
        flag_kind(a) == Flag::Embedding ==> a == "--embedding"@,
        flag_kind(a) == Flag::Valued ==> is_valued(a),
        flag_kind(a) == Flag::Switch ==> a == "--cont-batching"@ || a == "--cache-idle-slots"@,
{
}

/// Where one line names a server, what is found is the server of that line.
proof fn lemma_found(
    ps_text: Seq<char>,
    log_file: Option<Seq<char>>,
    home: Seq<char>,
    row: int,
    args: Seq<Seq<char>>,
    word: int,
)
    requires
        server_args(ps_text, row, args, word),
    ensures
        ({
            let server = arguments(args, word + 1, unknown_server());
            let line = lines(ps_text)[row];
            &&& server_of(line) == server
            &&& watched_server(ps_text, log_file, home) is Some ==> watched_server(
                ps_text,
                log_file,
                home,
            ) == Some(server)
            &&& log_file is None ==> (watched_server(ps_text, log_file, home) is Some
                <==> server.model.len() > 0)
            &&& log_file matches Some(file) ==> (watched_server(ps_text, log_file, home) is Some
                <==> logs_to(line, file, home))
        }),
{
    let all = lines(ps_text);
    let line = all[row];
    lemma_server_word(args, 0, word);
    assert forall|j: int| 0 <= j < all.len() && j != row implies !shows_server(
        #[trigger] all[j],
    ) by {}
    match log_file {
        Some(file) => {
            law_watched_server_logs(all, file, home);
            assert(logs_to(line, file, home) ==> logs_to(all[row], file, home));
        },
        None => {
            law_first_server_wins(all, 0);
            assert(shows_model(line) ==> shows_model(all[row]));
        },
    }
}

pub proof fn lemma_server_word(args: Seq<Seq<char>>, from: int, word: int)
    requires
        0 <= from <= word < args.len(),
        contains(args[word], "llama-server"@),
        forall|j: int| from <= j < word ==> !contains(#[trigger] args[j], "llama-server"@),
    ensures
        server_word(args, from) == word,
    decreases word - from,
{
    if from < word {
        lemma_server_word(args, from + 1, word);
    }
}

pub open spec fn str_view(text: Option<&str>) -> Option<Seq<char>> {
    match text {
        Some(t) => Some(t@),
        None => None,
    }
}

// ---- flags of the server --------------------------------------------------

/// A server embeds where `--embedding` stands among its flags, and only where
/// it stands among its arguments.
pub proof fn law_embedding_flag_is_read(
    ps_text: &str,
    log_file: Option<&str>,
    home: &str,
    row: int,
    args: Seq<Seq<char>>,
    word: int,
    info: LlamaServerInfo,
)
    requires
        server_args(ps_text@, row, args, word),
        call_ensures(get_llama_server_info, (ps_text, log_file, home), Some(info)),
    ensures
        (exists|i: int| #[trigger] flag_at(args, word, i, "--embedding"@)) ==> info.embedding,
        info.embedding ==> exists|i: int|
            word < i < args.len() && #[trigger] args[i] == "--embedding"@,
{
    lemma_flags();
    lemma_found(ps_text@, str_view(log_file), home@, row, args, word);
    lemma_keeps(args, word + 1, unknown_server());
    if exists|i: int| #[trigger] flag_at(args, word, i, "--embedding"@) {
        let i = choose|i: int| #[trigger] flag_at(args, word, i, "--embedding"@);
        let k = lemma_reaches(args, word + 1, unknown_server(), i);
        let (next, j) = argument(args, i, k);
        lemma_keeps(args, j, next);
    }
}

/// A server sees where `--mmproj` stands among its flags, and only where it
/// stands among its arguments.
pub proof fn law_projector_flag_is_read(
    ps_text: &str,
    log_file: Option<&str>,
    home: &str,
    row: int,
    args: Seq<Seq<char>>,
    word: int,
    info: LlamaServerInfo,
)
    requires
        server_args(ps_text@, row, args, word),
        call_ensures(get_llama_server_info, (ps_text, log_file, home), Some(info)),
    ensures
        (exists|i: int| #[trigger] flag_at(args, word, i, "--mmproj"@)) ==> info.multimodal,
        info.multimodal ==> exists|i: int|
            word < i < args.len() && #[trigger] args[i] == "--mmproj"@,
{
    lemma_flags();
    lemma_found(ps_text@, str_view(log_file), home@, row, args, word);
    lemma_keeps(args, word + 1, unknown_server());
    if exists|i: int| #[trigger] flag_at(args, word, i, "--mmproj"@) {
        let i = choose|i: int| #[trigger] flag_at(args, word, i, "--mmproj"@);
        let k = lemma_reaches(args, word + 1, unknown_server(), i);
        let (next, j) = argument(args, i, k);
        lemma_keeps(args, j, next);
    }
}

/// The model of a server is the argument after its last `-m`.
pub proof fn law_model_flag_is_read(
    ps_text: &str,
    log_file: Option<&str>,
    home: &str,
    row: int,
    args: Seq<Seq<char>>,
    word: int,
    i: int,
    info: LlamaServerInfo,
)
    requires
        server_args(ps_text@, row, args, word),
        call_ensures(get_llama_server_info, (ps_text, log_file, home), Some(info)),
        flag_at(args, word, i, "-m"@),
        i + 1 < args.len(),
        no_later(args, i + 1, "-m"@),
    ensures
        info.model@ == args[i + 1],
{
    lemma_flags();
    lemma_found(ps_text@, str_view(log_file), home@, row, args, word);
    let k = lemma_reaches(args, word + 1, unknown_server(), i);
    let (next, j) = argument(args, i, k);
    lemma_keeps(args, j, next);
}

/// A server without `-m` is not found.
pub proof fn law_server_without_model_is_not_found(
    ps_text: &str,
    log_file: Option<&str>,
    home: &str,
    row: int,
    args: Seq<Seq<char>>,
    word: int,
    r: Option<LlamaServerInfo>,
)
    requires
        server_args(ps_text@, row, args, word),
        call_ensures(get_llama_server_info, (ps_text, log_file, home), r),
        no_later(args, word, "-m"@),
    ensures
        r is None,
{
    lemma_found(ps_text@, str_view(log_file), home@, row, args, word);
    lemma_keeps(args, word + 1, unknown_server());
}

/// Without a log file to look for, a server with a model is found.
pub proof fn law_server_with_model_is_found(
    ps_text: &str,
    home: &str,
    row: int,
    args: Seq<Seq<char>>,
    word: int,
    i: int,
    r: Option<LlamaServerInfo>,
)
    requires
        server_args(ps_text@, row, args, word),
        call_ensures(get_llama_server_info, (ps_text, None::<&str>, home), r),
        flag_at(args, word, i, "-m"@),
        i + 1 < args.len(),
        no_later(args, i + 1, "-m"@),
    ensures
        r is Some,
{
    lemma_flags();
    lemma_found(ps_text@, None, home@, row, args, word);
    let k = lemma_reaches(args, word + 1, unknown_server(), i);
    let (next, j) = argument(args, i, k);
    lemma_keeps(args, j, next);
    lemma_words_are_long(lines(ps_text@)[row]);
    assert(args[i + 1].len() > 0);
}

/// No word is empty.
pub proof fn lemma_words_are_long(s: Seq<char>)
    ensures
        forall|i: int| 0 <= i < words(s).len() ==> (#[trigger] words(s)[i]).len() > 0,
    decreases s.len(),
{
    let start = run_end(s, 0, CharClass::Space);
    let end = run_end(s, start, CharClass::NotSpace);
    if 0 <= start < end <= s.len() {
        let rest = words(s.skip(end));
        lemma_words_are_long(s.skip(end));
        assert(words(s) =~= seq![s.subrange(start, end)] + rest);
        assert forall|i: int| 0 <= i < words(s).len() implies (#[trigger] words(s)[i]).len()
            > 0 by {
            if i > 0 {
                assert(words(s)[i] == rest[i - 1]);
            }
        }
    }
}

/// The context of a server is the number after its last `-c`, and zero without
/// one.
pub proof fn law_context_flag_is_read(
    ps_text: &str,
    log_file: Option<&str>,
    home: &str,
    row: int,
    args: Seq<Seq<char>>,
    word: int,
    i: int,
    value: &str,
    n: u32,
    info: LlamaServerInfo,
)
    requires
        server_args(ps_text@, row, args, word),
        call_ensures(get_llama_server_info, (ps_text, log_file, home), Some(info)),
        call_ensures(parse_u32, (value,), n),
    ensures
        flag_at(args, word, i, "-c"@) && i + 1 < args.len() && args[i + 1] == value@ && !(
        value@.len() > 0 && value@[0] == '-') && no_later(args, i, "-c"@) ==> info.context_len == n,
        no_later(args, word, "-c"@) ==> info.context_len == 0,
{
    lemma_flags();
    lemma_found(ps_text@, str_view(log_file), home@, row, args, word);
    lemma_keeps(args, word + 1, unknown_server());
    if flag_at(args, word, i, "-c"@) {
        let k = lemma_reaches(args, word + 1, unknown_server(), i);
        let (next, j) = argument(args, i, k);
        lemma_keeps(args, j, next);
    }
}

/// The number of slots of a server is the number after its last `-np`, and one
/// without it.
pub proof fn law_parallel_flag_is_read(
    ps_text: &str,
    log_file: Option<&str>,
    home: &str,
    row: int,
    args: Seq<Seq<char>>,
    word: int,
    i: int,
    value: &str,
    n: u32,
    info: LlamaServerInfo,
)
    requires
        server_args(ps_text@, row, args, word),
        call_ensures(get_llama_server_info, (ps_text, log_file, home), Some(info)),
        call_ensures(parse_u32, (value,), n),
    ensures
        flag_at(args, word, i, "-np"@) && i + 1 < args.len() && args[i + 1] == value@ && !(
        value@.len() > 0 && value@[0] == '-') && no_later(args, i, "-np"@) ==> info.n_parallel == n,
        no_later(args, word, "-np"@) ==> info.n_parallel == 1,
{
    lemma_flags();
    lemma_found(ps_text@, str_view(log_file), home@, row, args, word);
    lemma_keeps(args, word + 1, unknown_server());
    if flag_at(args, word, i, "-np"@) {
        let k = lemma_reaches(args, word + 1, unknown_server(), i);
        let (next, j) = argument(args, i, k);
        lemma_keeps(args, j, next);
    }
}

// ---- listed flags ---------------------------------------------------------

/// The places of the flags that are listed, from `from` on.
pub open spec fn listed_places(args: Seq<Seq<char>>, from: int, known: Server) -> Seq<int>
    decreases args.len() + 1 - from,
{
    if from < args.len() {
        let (next, j) = argument(args, from, known);
        let rest = listed_places(args, j, next);
        if next.params.len() > known.params.len() {
            seq![from] + rest
        } else {
            rest
        }
    } else {
        seq![]
    }
}

proof fn lemma_listed(args: Seq<Seq<char>>, from: int, known: Server)
    requires
        0 <= from,
    ensures
        ({
            let r = arguments(args, from, known).params;
            let at = listed_places(args, from, known);
            let n = known.params.len() as int;
            &&& r.len() == n + at.len()
            &&& r.take(n) == known.params
            &&& forall|k: int|
                0 <= k < at.len() ==> from <= #[trigger] at[k] < args.len() && listed_as(
                    args[at[k]],
                    r[n + k].0,
                ) && listed_value(args, at[k], r[n + k].1)
            &&& forall|j: int, k: int|
                0 <= j < k < at.len() ==> #[trigger] at[j] < #[trigger] at[k]
        }),
    decreases args.len() + 1 - from,
{
    lemma_flags();
    lemma_names();
    if from < args.len() {
        let (next, j) = argument(args, from, known);
        lemma_step(args, from, known);
        lemma_kind_of(args[from]);
        lemma_listed(args, j, next);
        let r = arguments(args, from, known).params;
        let at = listed_places(args, from, known);
        let rest = listed_places(args, j, next);
        let n = known.params.len() as int;
        let m = next.params.len() as int;
        assert(r == arguments(args, j, next).params);
        assert(r.take(n) =~= known.params) by {
            assert(r.take(m).take(n) =~= r.take(n));
            assert(next.params.take(n) =~= known.params);
        }
        if m > n {
            assert(m == n + 1);
            assert(at =~= seq![from] + rest);
            assert(r[n] == next.params[n]) by {
                assert(r.take(m)[n] == r[n]);
            }
            assert(listed_as(args[from], r[n].0));
            assert(listed_value(args, from, r[n].1));
            assert forall|k: int| 0 <= k < at.len() implies from <= #[trigger] at[k] < args.len()
                && listed_as(args[at[k]], r[n + k].0) && listed_value(args, at[k], r[n + k].1) by {
                if k > 0 {
                    assert(at[k] == rest[k - 1]);
                }
            }
            assert forall|i: int, k: int| 0 <= i < k < at.len() implies #[trigger] at[i]
                < #[trigger] at[k] by {
                assert(at[k] == rest[k - 1]);
                if i > 0 {
                    assert(at[i] == rest[i - 1]);
                }
            }
        } else {
            assert(next.params == known.params);
        }
    } else {
        assert(known.params.take(known.params.len() as int) =~= known.params);
    }
}

proof fn lemma_listed_all(args: Seq<Seq<char>>, from: int, known: Server, i: int)
    requires
        0 <= from <= i < args.len(),
        exists|name: Seq<char>| listed_as(args[i], name),
        i == from || !takes_next(args[i - 1]),
    ensures
        listed_places(args, from, known).contains(i),
    decreases i - from,
{
    lemma_flags();
    let (next, j) = argument(args, from, known);
    lemma_step(args, from, known);
    let at = listed_places(args, from, known);
    let rest = listed_places(args, j, next);
    let name = choose|name: Seq<char>| listed_as(args[i], name);
    assert(is_valued(args[i]) || args[i] == "--cont-batching"@ || args[i] == "--cache-idle-slots"@
        || args[i] == "--log-file"@ || args[i] == "--mmproj"@);
    if from == i {
        assert(next.params.len() == known.params.len() + 1);
        assert(at[0] == i);
    } else {
        assert(is_flag(args[i]));
        if from == i - 1 {
            assert(j == i);
        }
        lemma_listed_all(args, j, next, i);
        let k = choose|k: int| 0 <= k < rest.len() && rest[k] == i;
        if next.params.len() > known.params.len() {
            assert(at[k + 1] == i);
        } else {
            assert(at[k] == i);
        }
    }
}

/// The flags of a server are listed in their order, each under its own name
/// and with its own value: every one that belongs to no flag before it, and
/// none that is not there.
pub proof fn law_flags_are_listed(
    ps_text: &str,
    log_file: Option<&str>,
    home: &str,
    row: int,
    args: Seq<Seq<char>>,
    word: int,
    info: LlamaServerInfo,
) -> (at: Seq<int>)
    requires
        server_args(ps_text@, row, args, word),
        call_ensures(get_llama_server_info, (ps_text, log_file, home), Some(info)),
    ensures
        at.len() == info.params@.len(),
        forall|k: int|
            0 <= k < at.len() ==> word < #[trigger] at[k] < args.len() && listed_as(
                args[at[k]],
                info.params@[k].0@,
            ) && listed_value(args, at[k], info.params@[k].1@),
        forall|j: int, k: int| 0 <= j < k < at.len() ==> #[trigger] at[j] < #[trigger] at[k],
        forall|i: int, flag: Seq<char>, name: Seq<char>|
            #![trigger flag_at(args, word, i, flag), listed_as(flag, name)]
            flag_at(args, word, i, flag) && listed_as(flag, name) ==> at.contains(i),
{
    lemma_found(ps_text@, str_view(log_file), home@, row, args, word);
    lemma_listed(args, word + 1, unknown_server());
    let at = listed_places(args, word + 1, unknown_server());
    let listed = params_view(info.params@);
    assert(listed == arguments(args, word + 1, unknown_server()).params);
    assert forall|k: int| 0 <= k < at.len() implies word < #[trigger] at[k] < args.len()
        && listed_as(args[at[k]], info.params@[k].0@) && listed_value(
        args,
        at[k],
        info.params@[k].1@,
    ) by {
        assert(listed[k].0 == info.params@[k].0@);
        assert(listed[k].1 == info.params@[k].1@);
    }
    assert forall|i: int, flag: Seq<char>, name: Seq<char>|
        #![trigger flag_at(args, word, i, flag), listed_as(flag, name)]
        flag_at(args, word, i, flag) && listed_as(flag, name) implies at.contains(i) by {
        lemma_listed_all(args, word + 1, unknown_server(), i);
    }
    at
}

// ---- which server ---------------------------------------------------------

/// A list that names no llama-server, or names it only in lines that hold
/// `grep`, has no server.
pub proof fn law_no_server_is_found(
    ps_text: &str,
    log_file: Option<&str>,
    home: &str,
    r: Option<LlamaServerInfo>,
)
    requires
        forall|j: int|
            0 <= j < lines(ps_text@).len() ==> !contains(
                #[trigger] lines(ps_text@)[j],
                "llama-server"@,
            ) || contains(lines(ps_text@)[j], "grep"@),
        call_ensures(get_llama_server_info, (ps_text, log_file, home), r),
    ensures
        r is None,
{
    match log_file {
        Some(file) => law_watched_server_logs(lines(ps_text@), file@, home@),
        None => law_first_server_wins(lines(ps_text@), 0),
    }
}

/// The same of a server in two descriptions.
pub open spec fn same_server(a: LlamaServerInfo, b: LlamaServerInfo) -> bool {
    &&& a.model@ == b.model@
    &&& a.params@.len() == b.params@.len()
    &&& forall|i: int|
        0 <= i < a.params@.len() ==> (#[trigger] a.params@[i]).0@ == b.params@[i].0@
            && a.params@[i].1@ == b.params@[i].1@
    &&& a.context_len == b.context_len
    &&& a.n_parallel == b.n_parallel
    &&& a.multimodal == b.multimodal
    &&& a.embedding == b.embedding
}

proof fn lemma_same_server(a: LlamaServerInfo, b: LlamaServerInfo, server: Server)
    requires
        describes(a, server),
        describes(b, server),
    ensures
        same_server(a, b),
{
    assert(params_view(a.params@) == params_view(b.params@));
    assert(params_view(a.params@).len() == a.params@.len());
    assert(params_view(b.params@).len() == b.params@.len());
    assert forall|i: int| 0 <= i < a.params@.len() implies (#[trigger] a.params@[i]).0@
        == b.params@[i].0@ && a.params@[i].1@ == b.params@[i].1@ by {
        assert(params_view(a.params@)[i] == params_view(b.params@)[i]);
    }
}

/// Without a log file to look for, the server of the first line that shows one
/// is found: lines after it do not matter, nor do lines before it that show
/// none.
pub proof fn law_first_line_decides(
    ps_text: &str,
    line: &str,
    home: &str,
    row: int,
    whole: Option<LlamaServerInfo>,
    alone: Option<LlamaServerInfo>,
)
    requires
        0 <= row < lines(ps_text@).len(),
        lines(line@) == seq![lines(ps_text@)[row]],
        forall|j: int| 0 <= j < row ==> !shows_model(#[trigger] lines(ps_text@)[j]),
        call_ensures(get_llama_server_info, (ps_text, None::<&str>, home), whole),
        call_ensures(get_llama_server_info, (line, None::<&str>, home), alone),
        alone is Some,
    ensures
        whole is Some && same_server(whole->0, alone->0),
{
    let all = lines(ps_text@);
    let one = lines(line@);
    law_first_server_wins(one, 0);
    law_first_server_wins(all, 0);
    assert(one[0] == all[row]);
    assert(shows_model(all[row]));
    let i = choose|i: int|
        0 <= i < all.len() && #[trigger] shows_model(all[i]) && first_server(all, 0) == Some(
            server_of(all[i]),
        ) && forall|j: int| 0 <= j < i ==> !#[trigger] shows_model(all[j]);
    assert(i == row);
    lemma_same_server(whole->0, alone->0, server_of(all[row]));
}

/// With a log file to look for, the server of the last line that shows one
/// with that log file is found, whatever other lines show.
pub proof fn law_last_line_with_the_log_decides(
    ps_text: &str,
    line: &str,
    log_file: &str,
    home: &str,
    row: int,
    whole: Option<LlamaServerInfo>,
    alone: Option<LlamaServerInfo>,
)
    requires
        0 <= row < lines(ps_text@).len(),
        lines(line@) == seq![lines(ps_text@)[row]],
        forall|j: int|
            row < j < lines(ps_text@).len() ==> !logs_to(
                #[trigger] lines(ps_text@)[j],
                log_file@,
                home@,
            ),
        call_ensures(get_llama_server_info, (ps_text, Some(log_file), home), whole),
        call_ensures(get_llama_server_info, (line, Some(log_file), home), alone),
        alone is Some,
    ensures
        whole is Some && same_server(whole->0, alone->0),
{
    let all = lines(ps_text@);
    let one = lines(line@);
    law_watched_server_logs(one, log_file@, home@);
    law_watched_server_logs(all, log_file@, home@);
    assert(one[0] == all[row]);
    assert(logs_to(all[row], log_file@, home@));
    let i = choose|i: int|
        0 <= i < all.len() && #[trigger] logs_to(all[i], log_file@, home@) && last_logging(
            all,
            log_file@,
            home@,
        ) == Some(server_of(all[i])) && forall|j: int|
            i < j < all.len() ==> !#[trigger] logs_to(all[j], log_file@, home@);
    assert(i == row);
    lemma_same_server(whole->0, alone->0, server_of(all[row]));
}

/// A text without the pattern stays.
proof fn lemma_replace_none(s: Seq<char>, from: Seq<char>, to: Seq<char>)
    requires
        !contains(s, from),
    ensures
        replace_all(s, from, to) == s,
{
    law_find_is_first(s, from);
}

/// Every `$HOME` of a log file stands for the home directory, also after
/// another one, and tildes at its start for nothing.
pub proof fn law_home_is_put_in_everywhere(
    tildes: Seq<char>,
    before: Seq<char>,
    after: Seq<char>,
    home: Seq<char>,
)
    requires
        forall|i: int| 0 <= i < tildes.len() ==> #[trigger] tildes[i] == '~',
        before.len() > 0 ==> before[0] != '~',
        !contains(before, "$HOME"@),
    ensures
        resolved(tildes + before + "$HOME"@ + after, home) == before + home + replace_all(
            after,
            "$HOME"@,
            home,
        ),
        resolved(tildes + before, home) == before,
{
    reveal_strlit("$HOME");
    lemma_unbordered("$HOME"@);
    let bare = before + "$HOME"@ + after;
    lemma_tildes(tildes, bare);
    assert(tildes + bare =~= tildes + before + "$HOME"@ + after);
    lemma_find_split(before, "$HOME"@, after);
    assert(bare.take(before.len() as int) =~= before);
    lemma_tildes(tildes, before);
    lemma_replace_none(before, "$HOME"@, home);
}

proof fn lemma_tildes(tildes: Seq<char>, rest: Seq<char>)
    requires
        forall|i: int| 0 <= i < tildes.len() ==> #[trigger] tildes[i] == '~',
        rest.len() > 0 ==> rest[0] != '~',
    ensures
        trim_start_char(tildes + rest, '~') == rest,
{
    let s = tildes + rest;
    let n = tildes.len() as int;
    assert forall|i: int| 0 <= i < n implies CharClass::Is('~').holds(#[trigger] s[i]) by {
        assert(s[i] == tildes[i]);
    }
    if rest.len() > 0 {
        assert(s[n] == rest[0]);
    }
    lemma_run_of(s, 0, n, CharClass::Is('~'));
    assert(s.skip(n) =~= rest);
}

/// With a log file to look for, a server with a model is found where its last
/// `--log-file` gives that file: as it is, with the home directory in place of
/// `$HOME`, or after a tilde. Where it gives another file, or none, the server
/// is not found.
pub proof fn law_log_file_decides(
    ps_text: &str,
    log_file: &str,
    home: &str,
    row: int,
    args: Seq<Seq<char>>,
    word: int,
    m: int,
    i: int,
    rest: Seq<char>,
    r: Option<LlamaServerInfo>,
)
    requires
        server_args(ps_text@, row, args, word),
        call_ensures(get_llama_server_info, (ps_text, Some(log_file), home), r),
        flag_at(args, word, m, "-m"@),
        m + 1 < args.len(),
        no_later(args, m + 1, "-m"@),
        rest.len() > 0 ==> rest[0] != '~',
        !contains(rest, "$HOME"@),
    ensures
        no_later(args, word, "--log-file"@) ==> r is None,
        flag_at(args, word, i, "--log-file"@) && i + 1 < args.len() && no_later(
            args,
            i,
            "--log-file"@,
        ) && !(args[i + 1].len() > 0 && args[i + 1][0] == '-') ==> {
            let file = args[i + 1];
            &&& file == log_file@ ==> r is Some
            &&& file == "$HOME"@ + rest && home@ + rest == log_file@ ==> r is Some
            &&& file == "~"@ + rest && rest == log_file@ ==> r is Some
            &&& file == rest && file != log_file@ ==> r is None
        },
{
    let line = lines(ps_text@)[row];
    lemma_flags();
    lemma_found(ps_text@, Some(log_file@), home@, row, args, word);
    let k = lemma_reaches(args, word + 1, unknown_server(), m);
    let (next, j) = argument(args, m, k);
    lemma_keeps(args, j, next);
    lemma_words_are_long(line);
    assert(args[m + 1].len() > 0);
    assert(server_of(line).model.len() > 0);
    lemma_keeps(args, word + 1, unknown_server());
    if flag_at(args, word, i, "--log-file"@) && i + 1 < args.len() && no_later(
        args,
        i,
        "--log-file"@,
    ) && !is_flag(args[i + 1]) {
        let file = args[i + 1];
        let k = lemma_reaches(args, word + 1, unknown_server(), i);
        let (next, j) = argument(args, i, k);
        lemma_keeps(args, j, next);
        assert(server_of(line).log_file == Some(file));
        reveal_strlit("$HOME");
        reveal_strlit("~");
        lemma_unbordered("$HOME"@);
        lemma_replace_none(rest, "$HOME"@, home@);
        if file == "$HOME"@ + rest {
            assert(file[0] == '$');
            assert(trim_start_char(file, '~') =~= file);
            let empty = Seq::<char>::empty();
            assert(file =~= empty + "$HOME"@ + rest);
            lemma_find_split(empty, "$HOME"@, rest);
            assert(file.take(0) + home@ + replace_all(rest, "$HOME"@, home@) =~= home@ + rest);
            assert(resolved(file, home@) == home@ + rest);
        }
        if file == "~"@ + rest {
            assert(file[0] == '~');
            if rest.len() > 0 {
                assert(file[1] == rest[0]);
            }
            lemma_run_of(file, 0, 1, CharClass::Is('~'));
            assert(trim_start_char(file, '~') =~= rest);
        }
        if file == rest {
            assert(trim_start_char(file, '~') =~= file) by {
                lemma_run_of(file, 0, 0, CharClass::Is('~'));
            }
        }
    }
}

} // verus!
