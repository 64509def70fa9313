//! Which embedding models are found in a list of processes.

use vstd::prelude::*;

use crate::laws::server::{lemma_server_word, lemma_words_are_long, no_later, server_args, str_view};
use crate::process::{
    embedder_argument, embedder_arguments, embedder_of, embedding_models, get_embedding_models,
    is_flag, shows_embedding, shows_server, Embedder,
};
use crate::text::{contains, lines, texts};

verus! {

/// The flag `flag` stands at `i`, and is no model or log file of a flag before
/// it.
pub open spec fn stands_at(args: Seq<Seq<char>>, word: int, i: int, flag: Seq<char>) -> bool {
    &&& word < i < args.len()
    &&& args[i] == flag
    &&& i == word + 1 || (args[i - 1] != "-m"@ && args[i - 1] != "--log-file"@)
}

/// The models that are found; none where nothing is.
pub open spec fn found(r: Option<Vec<String>>) -> Seq<Seq<char>> {
    match r {
        Some(models) => texts(models@),
        None => seq![],
    }
}

spec fn unknown() -> Embedder {
    Embedder { model: seq![], log_file: None, embedding: false }
}

proof fn lemma_apart()
    ensures
        "-m"@ != "--log-file"@,
        "-m"@ != "--embedding"@,
        "--log-file"@ != "--embedding"@,
        is_flag("-m"@) && is_flag("--log-file"@) && is_flag("--embedding"@),
{
    reveal_strlit("-m");
    reveal_strlit("--log-file");
    reveal_strlit("--embedding");
    assert("-m"@.len() == 2 && "-m"@[0] == '-');
    assert("--log-file"@.len() == 10 && "--log-file"@[0] == '-');
    assert("--embedding"@.len() == 11 && "--embedding"@[0] == '-');
}

/// What is known when the argument at `i` is read.
proof fn lemma_reaches(args: Seq<Seq<char>>, from: int, known: Embedder, i: int) -> (k: Embedder)
    requires
        0 <= from <= i < args.len(),
        i == from || (args[i - 1] != "-m"@ && args[i - 1] != "--log-file"@),
    ensures
        embedder_arguments(args, from, known) == embedder_arguments(args, i, k),
    decreases i - from,
{
    if from == i {
        known
    } else {
        let (next, j) = embedder_argument(args, from, known);
        assert(embedder_arguments(args, from, known) == embedder_arguments(args, j, next));
        if j == i {
            next
        } else {
            lemma_reaches(args, j, next, i)
        }
    }
}

/// What the arguments from `from` on leave as it is.
proof fn lemma_keeps(args: Seq<Seq<char>>, from: int, known: Embedder)
    requires
        0 <= from,
    ensures
        ({
            let r = embedder_arguments(args, from, known);
            &&& known.embedding ==> r.embedding
            &&& no_later(args, from - 1, "--embedding"@) ==> r.embedding == known.embedding
            &&& no_later(args, from - 1, "-m"@) ==> r.model == known.model
            &&& no_later(args, from - 1, "--log-file"@) ==> r.log_file == known.log_file
        }),
    decreases args.len() + 1 - from,
{
    lemma_apart();
    if from < args.len() {
        let (next, j) = embedder_argument(args, from, known);
        assert(embedder_arguments(args, from, known) == embedder_arguments(args, j, next));
        lemma_keeps(args, j, next);
        assert(no_later(args, from - 1, "-m"@) ==> args[from] != "-m"@);
    }
}

/// Lines that name no server hold no embedding model.
proof fn lemma_none(all: Seq<Seq<char>>, log_file: Option<Seq<char>>)
    requires
        forall|j: int| 0 <= j < all.len() ==> !contains(#[trigger] all[j], "llama-server"@),
    ensures
        embedding_models(all, log_file) == Seq::<Seq<char>>::empty(),
    decreases all.len(),
{
    if all.len() > 0 {
        let before = all.drop_last();
        assert forall|j: int| 0 <= j < before.len() implies !contains(
            #[trigger] before[j],
            "llama-server"@,
        ) by {
            assert(before[j] == all[j]);
        }
        lemma_none(before, log_file);
        assert(!contains(all[all.len() - 1], "llama-server"@));
    }
}

/// The models of lines after lines come after theirs.
proof fn lemma_concat(a: Seq<Seq<char>>, b: Seq<Seq<char>>, log_file: Option<Seq<char>>)
    ensures
        embedding_models(a + b, log_file) == embedding_models(a, log_file) + embedding_models(
            b,
            log_file,
        ),
    decreases b.len(),
{
    if b.len() == 0 {
        assert(a + b =~= a);
        assert(embedding_models(a, log_file) + embedding_models(b, log_file) =~= embedding_models(
            a,
            log_file,
        ));
    } else {
        assert((a + b).drop_last() =~= a + b.drop_last());
        assert((a + b).last() == b.last());
        lemma_concat(a, b.drop_last(), log_file);
        assert(embedding_models(a + b, log_file) =~= embedding_models(a, log_file)
            + embedding_models(b, log_file));
    }
}

/// Where one line names a server, its model alone can be found.
proof fn lemma_one(
    ps_text: Seq<char>,
    log_file: Option<Seq<char>>,
    row: int,
    args: Seq<Seq<char>>,
    word: int,
)
    requires
        server_args(ps_text, row, args, word),
    ensures
        ({
            let line = lines(ps_text)[row];
            &&& embedder_of(line) == embedder_arguments(args, word + 1, unknown())
            &&& embedding_models(lines(ps_text), log_file) == if shows_embedding(line, log_file) {
                seq![embedder_of(line).model]
            } else {
                seq![]
            }
        }),
{
    let all = lines(ps_text);
    let line = all[row];
    lemma_server_word(args, 0, word);
    let before = all.take(row);
    let after = all.skip(row + 1);
    assert(all =~= before + (seq![line] + after));
    lemma_concat(before, seq![line] + after, log_file);
    lemma_concat(seq![line], after, log_file);
    assert forall|j: int| 0 <= j < before.len() implies !contains(
        #[trigger] before[j],
        "llama-server"@,
    ) by {
        assert(before[j] == all[j]);
    }
    assert forall|j: int| 0 <= j < after.len() implies !contains(
        #[trigger] after[j],
        "llama-server"@,
    ) by {
        assert(after[j] == all[row + 1 + j]);
    }
    lemma_none(before, log_file);
    lemma_none(after, log_file);
    let one = seq![line];
    assert(one.drop_last() =~= Seq::<Seq<char>>::empty());
    assert(one.last() == line);
    assert(embedding_models(one.drop_last(), log_file) =~= Seq::<Seq<char>>::empty());
    assert(embedding_models(one, log_file) =~= if shows_embedding(line, log_file) {
        seq![embedder_of(line).model]
    } else {
        seq![]
    });
    assert(embedding_models(all, log_file) =~= embedding_models(one, log_file));
}

/// The model of a server that embeds is found; its own log file decides where
/// there is a server to leave out.
pub proof fn law_embedding_model_is_found(
    ps_text: &str,
    log_file: Option<&str>,
    row: int,
    args: Seq<Seq<char>>,
    word: int,
    m: int,
    e: int,
    i: int,
    r: Option<Vec<String>>,
)
    requires
        server_args(ps_text@, row, args, word),
        call_ensures(get_embedding_models, (ps_text, log_file), r),
        stands_at(args, word, e, "--embedding"@),
        stands_at(args, word, m, "-m"@),
        m + 1 < args.len(),
        no_later(args, m + 1, "-m"@),
    ensures
        log_file is None ==> found(r) == seq![args[m + 1]],
        log_file is Some && no_later(args, word, "--log-file"@) ==> found(r) == seq![args[m + 1]],
        log_file is Some && stands_at(args, word, i, "--log-file"@) && i + 1 < args.len()
            && no_later(args, i, "--log-file"@) && !(args[i + 1].len() > 0 && args[i + 1][0] == '-')
            ==> {
            &&& args[i + 1] == log_file->0@ ==> r is None
            &&& args[i + 1] != log_file->0@ ==> found(r) == seq![args[m + 1]]
        },
{
    let line = lines(ps_text@)[row];
    lemma_apart();
    lemma_one(ps_text@, str_view(log_file), row, args, word);
    lemma_words_are_long(line);
    assert(args[m + 1].len() > 0);
    lemma_keeps(args, word + 1, unknown());
    {
        let k = lemma_reaches(args, word + 1, unknown(), e);
        let (next, j) = embedder_argument(args, e, k);
        lemma_keeps(args, j, next);
    }
    {
        let k = lemma_reaches(args, word + 1, unknown(), m);
        let (next, j) = embedder_argument(args, m, k);
        lemma_keeps(args, j, next);
    }
    assert(embedder_of(line).embedding);
    assert(embedder_of(line).model == args[m + 1]);
    if stands_at(args, word, i, "--log-file"@) && i + 1 < args.len() && no_later(
        args,
        i,
        "--log-file"@,
    ) && !is_flag(args[i + 1]) {
        let k = lemma_reaches(args, word + 1, unknown(), i);
        let (next, j) = embedder_argument(args, i, k);
        lemma_keeps(args, j, next);
        assert(embedder_of(line).log_file == Some(args[i + 1]));
    }
}

/// A server that does not embed, or has no model, has no embedding model.
pub proof fn law_other_servers_have_no_embedding_model(
    ps_text: &str,
    log_file: Option<&str>,
    row: int,
    args: Seq<Seq<char>>,
    word: int,
    r: Option<Vec<String>>,
)
    requires
        server_args(ps_text@, row, args, word),
        call_ensures(get_embedding_models, (ps_text, log_file), r),
        no_later(args, word, "--embedding"@) || no_later(args, word, "-m"@),
    ensures
        r is None,
{
    lemma_one(ps_text@, str_view(log_file), row, args, word);
    lemma_keeps(args, word + 1, unknown());
}

/// A list that names no llama-server, or names it only in lines that hold
/// `grep`, has no embedding model.
pub proof fn law_no_embedding_model_is_found(
    ps_text: &str,
    log_file: Option<&str>,
    r: Option<Vec<String>>,
)
    requires
        forall|j: int|
            0 <= j < lines(ps_text@).len() ==> !contains(
                #[trigger] lines(ps_text@)[j],
                "llama-server"@,
            ) || contains(lines(ps_text@)[j], "grep"@),
        call_ensures(get_embedding_models, (ps_text, log_file), r),
    ensures
        r is None,
{
    lemma_no_server(lines(ps_text@), str_view(log_file));
}

proof fn lemma_no_server(all: Seq<Seq<char>>, log_file: Option<Seq<char>>)
    requires
        forall|j: int| 0 <= j < all.len() ==> !shows_server(#[trigger] all[j]),
    ensures
        embedding_models(all, log_file) == Seq::<Seq<char>>::empty(),
    decreases all.len(),
{
    if all.len() > 0 {
        let before = all.drop_last();
        assert forall|j: int| 0 <= j < before.len() implies !shows_server(#[trigger] before[j]) by {
            assert(before[j] == all[j]);
        }
        lemma_no_server(before, log_file);
        assert(!shows_server(all[all.len() - 1]));
    }
}

/// The embedding models of a list are those of its first lines, and after them
/// those of the others.
pub proof fn law_embedding_models_come_in_order(
    whole: &str,
    first: &str,
    second: &str,
    log_file: Option<&str>,
    all: Option<Vec<String>>,
    a: Option<Vec<String>>,
    b: Option<Vec<String>>,
)
    requires
        lines(whole@) == lines(first@) + lines(second@),
        call_ensures(get_embedding_models, (whole, log_file), all),
        call_ensures(get_embedding_models, (first, log_file), a),
        call_ensures(get_embedding_models, (second, log_file), b),
    ensures
        found(all) == found(a) + found(b),
        all is None <==> found(all).len() == 0,
{
    lemma_concat(lines(first@), lines(second@), str_view(log_file));
    assert(found(all) =~= embedding_models(lines(whole@), str_view(log_file)));
    assert(found(a) =~= embedding_models(lines(first@), str_view(log_file)));
    assert(found(b) =~= embedding_models(lines(second@), str_view(log_file)));
}

} // verus!
