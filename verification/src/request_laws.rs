//! What holds of each request.

use crate::cmd::{CommandModel, TransferType};
use crate::ftp::{AnswerModel, ResultCode};
use crate::listing::{listing, FileInfoModel};
use crate::path::{
    components, file_name, has_leading_dot, has_root, inner_components, is_single, join,
    lemma_collect,
    lemma_components_join, lemma_components_parent, lemma_components_single, lemma_strip_join,
    lemma_strip_prefix,
    parent, relative, spans, spans_from, starts_with, strip_prefix, SLASH,
};
use crate::path_laws::{
    is_name, law_components, law_file_name, law_join_bytes, law_parent, law_strip_prefix,
};
use crate::session::{
    accepts, advance, at, complete_path, disconnected, has_month, have_months, initial, missing,
    passive_address, ready, start, well_formed, ActionModel, ClientModel, EventModel,
    StageModel,
};
use crate::session_laws::{can_run, law_request_confined, run};
use crate::text::{find_from, lemma_find_from, lemma_find_from_unique, numeral, split};
use vstd::prelude::*;
use vstd::utf8::*;

verus! {

/// The session after a request that is answered at once.
proof fn lemma_answered_at_once(client: ClientModel, command: CommandModel)
    requires
        ready(client, command),
        start(client, command).0.stage is Reply,
    ensures
        can_run(client, command, seq![EventModel::Sent]),
        run(client, command, seq![EventModel::Sent]).0 == at(
            start(client, command).0,
            StageModel::Idle,
        ),
        run(client, command, seq![EventModel::Sent]).1 == seq![
            start(client, command).1,
            ActionModel::Done,
        ],
{
    let events = seq![EventModel::Sent];
    assert(events.drop_last() =~= seq![]);
    reveal_with_fuel(run, 2);
    reveal_with_fuel(can_run, 2);
    assert(run(client, command, events).1 =~= seq![start(client, command).1, ActionModel::Done]);
}

/// A client that changes to a directory in the one that the server serves is then in that
/// directory: the root of the server and the working directory together name it. The client
/// is told so, and nothing else changes.
pub proof fn law_cwd(client: ClientModel, directory: Seq<char>, place: Seq<u8>)
    requires
        well_formed(client),
        client.stage is Idle,
        starts_with(place, client.server_root),
    ensures
        ({
            let events = seq![EventModel::Canonical(Ok(place)), EventModel::Sent];
            let (after, actions) = run(client, CommandModel::Cwd(directory), events);
            &&& can_run(client, CommandModel::Cwd(directory), events)
            &&& after == (ClientModel { cwd: after.cwd, ..client })
            &&& components(join(client.server_root, after.cwd)) == components(place)
            &&& components(after.cwd) == components(place).skip(
                components(client.server_root).len() as int,
            )
            &&& exists|from: int|
                0 <= from && from + after.cwd.len() <= place.len() && after.cwd
                    == #[trigger] place.subrange(from, from + after.cwd.len())
            &&& after.cwd.len() > 0 ==> after.cwd[0] != 47 && after.cwd.last() != 47
            &&& actions.len() == 3
            &&& looks_for(client, actions[0], names_below(client, encode_utf8(directory)))
            &&& actions[1] == ActionModel::Send(
                AnswerModel {
                    code: ResultCode::RequestedFileActionOkay,
                    message: "Directory changed to \""@ + directory + "\""@,
                },
            )
            &&& actions[2] is Done
        }),
{
    let command = CommandModel::Cwd(directory);
    let e1 = EventModel::Canonical(Ok(place));
    let e2 = EventModel::Sent;
    law_cwd_looks_there(client, directory);
    assert(run(client, command, seq![]).0 == at(client, StageModel::CwdResolve(directory)));
    lemma_step(client, command, seq![], e1, at(client, StageModel::CwdResolve(directory)));
    assert(seq![].push(e1) =~= seq![e1]);
    let moved = run(client, command, seq![e1]).0;
    lemma_step(client, command, seq![e1], e2, moved);
    assert(seq![e1].push(e2) =~= seq![e1, e2]);
    lemma_strip_prefix(place, client.server_root);
    law_strip_prefix(place, client.server_root);
    let (after, actions) = run(client, command, seq![e1, e2]);
    assert(after.cwd == strip_prefix(place, client.server_root)->0);
    lemma_components_join(client.server_root, after.cwd);
    assert(components(client.server_root) + components(place).skip(
        components(client.server_root).len() as int,
    ) =~= components(place));
}

/// A client that asks for a directory that is not there, or that lies outside the one that
/// the server serves, is told that there is none, and stays where it is.
pub proof fn law_cwd_refused(
    client: ClientModel,
    directory: Seq<char>,
    found: Result<Seq<u8>, std::io::Error>,
)
    requires
        well_formed(client),
        client.stage is Idle,
        found matches Ok(place) ==> !starts_with(place, client.server_root),
    ensures
        ({
            let events = seq![EventModel::Canonical(found), EventModel::Sent];
            let (after, actions) = run(client, CommandModel::Cwd(directory), events);
            &&& can_run(client, CommandModel::Cwd(directory), events)
            &&& after == client
            &&& actions.len() == 3
            &&& looks_for(client, actions[0], names_below(client, encode_utf8(directory)))
            &&& actions[1] == ActionModel::Send(
                AnswerModel {
                    code: ResultCode::FileNotFound,
                    message: "No such file or directory"@,
                },
            )
            &&& actions[2] is Done
        }),
{
    let command = CommandModel::Cwd(directory);
    let e1 = EventModel::Canonical(found);
    let e2 = EventModel::Sent;
    law_cwd_looks_there(client, directory);
    assert(run(client, command, seq![]).0 == at(client, StageModel::CwdResolve(directory)));
    lemma_step(client, command, seq![], e1, at(client, StageModel::CwdResolve(directory)));
    assert(seq![].push(e1) =~= seq![e1]);
    lemma_step(client, command, seq![e1], e2, at(client, StageModel::Reply));
    assert(seq![e1].push(e2) =~= seq![e1, e2]);
    assert(run(client, command, seq![e1, e2]).0 =~= client);
}

/// A client that has changed to a directory below the root of the server is shown just the
/// path from that root to it.
pub proof fn law_pwd_after_cwd(client: ClientModel, directory: Seq<char>, shown: Seq<char>)
    requires
        well_formed(client),
        client.stage is Idle,
        is_name(split(encode_utf8(shown), 47)[0]),
        is_name(split(encode_utf8(shown), 47).last()),
    ensures
        ({
            let place = join(client.server_root, encode_utf8(shown));
            let inside = run(
                client,
                CommandModel::Cwd(directory),
                seq![EventModel::Canonical(Ok(place)), EventModel::Sent],
            ).0;
            &&& inside.cwd == encode_utf8(shown)
            &&& run(inside, CommandModel::Pwd, seq![EventModel::Sent]).1[0] == ActionModel::Send(
                AnswerModel {
                    code: ResultCode::PATHNAMECreated,
                    message: "\"/"@ + shown + "\" "@,
                },
            )
        }),
{
    let bytes = encode_utf8(shown);
    let place = join(client.server_root, bytes);
    lemma_strip_join(client.server_root, bytes);
    encode_utf8_valid_utf8(shown);
    encode_utf8_decode_utf8(shown);
    law_cwd(client, directory, place);
    let command = CommandModel::Cwd(directory);
    let e1 = EventModel::Canonical(Ok(place));
    let e2 = EventModel::Sent;
    assert(run(client, command, seq![]).0 == at(client, StageModel::CwdResolve(directory)));
    lemma_step(client, command, seq![], e1, at(client, StageModel::CwdResolve(directory)));
    assert(seq![].push(e1) =~= seq![e1]);
    lemma_step(client, command, seq![e1], e2, run(client, command, seq![e1]).0);
    assert(seq![e1].push(e2) =~= seq![e1, e2]);
    law_pwd(run(client, command, seq![e1, e2]).0);
}

/// A client that goes up leaves the last component of its working directory; at the root of
/// the server it stays where it is.
pub proof fn law_cdup(client: ClientModel)
    requires
        well_formed(client),
        client.stage is Idle,
    ensures
        ({
            let events = seq![EventModel::Sent];
            let (after, actions) = run(client, CommandModel::CdUp, events);
            &&& can_run(client, CommandModel::CdUp, events)
            &&& after == (ClientModel { cwd: after.cwd, ..client })
            &&& client.cwd.len() == 0 ==> after.cwd == client.cwd
            &&& client.cwd.len() > 0 ==> components(after.cwd) == components(
                client.cwd,
            ).drop_last()
            &&& after.cwd.len() <= client.cwd.len()
            &&& after.cwd == client.cwd.take(after.cwd.len() as int)
            &&& client.cwd.len() > 0 && after.cwd.len() > 0 ==> after.cwd.last() != 47
            &&& actions.len() == 2 && actions[1] is Done
            &&& actions[0] == ActionModel::Send(
                AnswerModel { code: ResultCode::CommandOkay, message: "Done"@ },
            )
        }),
{
    lemma_answered_at_once(client, CommandModel::CdUp);
    law_parent(client.cwd);
    lemma_components_single(client.cwd);
    lemma_components_parent(client.cwd);
    if client.cwd.len() == 0 {
        assert(spans(client.cwd) =~= seq![]);
        assert(parent(client.cwd) is None);
    } else {
        let names = components(client.cwd);
        assert(is_single(names[names.len() - 1]));
        assert(names.last() != seq![SLASH]) by {
            if names.last() == seq![SLASH] {
                assert(names.last()[0] == SLASH);
            }
        }
        assert(parent(client.cwd) is Some);
        let above = parent(client.cwd)->0;
        if above.len() == 1 {
            assert(above[0] == client.cwd[0]);
        }
    }
    assert(client.cwd.take(client.cwd.len() as int) =~= client.cwd);
}

/// Going up undoes a change to a directory in the working directory: root and working
/// directory together name the same directory as before.
pub proof fn law_cdup_undoes_cwd(
    client: ClientModel,
    directory: Seq<char>,
    name: Seq<u8>,
    place: Seq<u8>,
)
    requires
        well_formed(client),
        client.stage is Idle,
        components(place) == components(join(client.server_root, client.cwd)).push(name),
    ensures
        ({
            let inside = run(
                client,
                CommandModel::Cwd(directory),
                seq![EventModel::Canonical(Ok(place)), EventModel::Sent],
            ).0;
            let back = run(inside, CommandModel::CdUp, seq![EventModel::Sent]).0;
            &&& components(join(client.server_root, inside.cwd)) == components(place)
            &&& components(join(client.server_root, back.cwd)) == components(
                join(client.server_root, client.cwd),
            )
        }),
{
    let root = client.server_root;
    let before = components(join(root, client.cwd));
    lemma_components_join(root, client.cwd);
    assert(components(root).is_prefix_of(components(place))) by {
        assert(components(root) =~= components(place).take(components(root).len() as int));
    }
    let inside = run(
        client,
        CommandModel::Cwd(directory),
        seq![EventModel::Canonical(Ok(place)), EventModel::Sent],
    ).0;
    let count = components(root).len() as int;
    law_cwd(client, directory, place);
    lemma_strip_prefix(place, root);
    let shorter = components(place).skip(count);
    assert(shorter.len() > 0);
    assert(inside.cwd.len() > 0) by {
        if inside.cwd.len() == 0 {
            assert(spans(inside.cwd) =~= seq![]);
        }
    }
    assert(well_formed(inside)) by {
        law_request_confined(
            client,
            CommandModel::Cwd(directory),
            seq![EventModel::Canonical(Ok(place)), EventModel::Sent],
        );
    }
    law_cdup(inside);
    let back = run(inside, CommandModel::CdUp, seq![EventModel::Sent]).0;
    law_request_confined(inside, CommandModel::CdUp, seq![EventModel::Sent]);
    lemma_components_join(root, back.cwd);
    assert(components(root) + shorter.drop_last() =~= before);
}

/// The working directory is shown with a slash before it, and showing it changes nothing.
pub proof fn law_pwd(client: ClientModel)
    requires
        client.stage is Idle,
        valid_utf8(client.cwd),
    ensures
        can_run(client, CommandModel::Pwd, seq![EventModel::Sent]),
        run(client, CommandModel::Pwd, seq![EventModel::Sent]).0 == client,
        run(client, CommandModel::Pwd, seq![EventModel::Sent]).1[0] == ActionModel::Send(
            AnswerModel {
                code: ResultCode::PATHNAMECreated,
                message: "\"/"@ + decode_utf8(client.cwd) + "\" "@,
            },
        ),
{
    lemma_answered_at_once(client, CommandModel::Pwd);
    assert(run(client, CommandModel::Pwd, seq![EventModel::Sent]).0 =~= client);
}

/// The place that is looked for has the components of the server's root and then those of the
/// path, without a root or a dot at its beginning.
pub proof fn law_complete_path(client: ClientModel, path: Seq<u8>)
    requires
        client.server_root.len() > 0,
    ensures
        components(complete_path(client, path)) == components(client.server_root) + (if path.len()
            > 0 && path[0] == 47 {
            components(path).skip(1)
        } else {
            inner_components(path)
        }),
        complete_path(client, path).take(client.server_root.len() as int) == client.server_root,
        !(path.len() > 0 && path[0] == 47) ==> complete_path(client, path).skip(
            complete_path(client, path).len() - path.len(),
        ) == path,
{
    if has_root(path) {
        let names = components(path).skip(1);
        lemma_components_single(path);
        assert forall|k: int| 0 <= k < names.len() implies is_single(#[trigger] names[k]) by {
            assert(names[k] == components(path)[k + 1]);
        }
        lemma_collect(names);
    }
    law_join_bytes(client.server_root, relative(path));
    lemma_components_join(client.server_root, relative(path));
}

/// The components of a path of the client below the root of the server: its own where it begins
/// with a slash, and otherwise those of the working directory and then its own.
pub open spec fn names_below(client: ClientModel, path: Seq<u8>) -> Seq<Seq<u8>> {
    if path.len() > 0 && path[0] == 47 {
        components(path).skip(1)
    } else {
        components(client.cwd) + inner_components(path)
    }
}

/// A path without a root has its components but for a dot at the beginning.
proof fn lemma_inner(path: Seq<u8>)
    requires
        !has_root(path),
    ensures
        inner_components(path) == (if components(path).len() > 0 && components(path)[0] == seq![
            46u8,
        ] {
            components(path).skip(1)
        } else {
            components(path)
        }),
        !has_leading_dot(path) ==> inner_components(path) == components(path),
{
    law_components(path);
    lemma_components_single(path);
    let names = components(path);
    let inner = inner_components(path);
    lemma_find_from(path, SLASH, 0);
    if split(path, 47)[0] == seq![46u8] {
        assert(names =~= seq![seq![46u8]] + inner);
        assert(names.skip(1) =~= inner);
        if !has_leading_dot(path) {
            let end = find_from(path, SLASH, 0);
            let first = path.subrange(0, end);
            assert(split(path, 47)[0] =~= first);
            assert(first[0] == 46 && first.len() == 1);
        }
    } else {
        assert(names =~= inner);
        if has_leading_dot(path) {
            lemma_find_from_unique(path, SLASH, 0, 1);
            assert(split(path, 47)[0] =~= path.subrange(0, 1));
            assert(path.subrange(0, 1) =~= seq![46u8]);
        }
        if names.len() > 0 {
            assert(is_single(names[0]));
        }
    }
}

/// The empty path has no components.
proof fn lemma_spans_of_empty(path: Seq<u8>)
    requires
        path.len() == 0,
    ensures
        inner_components(path).len() == 0,
        components(path).len() == 0,
{
    lemma_find_from_unique(path, SLASH, 0, 0);
    assert(path.subrange(0, 0).len() == 0);
    assert(spans_from(path, 0) =~= seq![]);
    assert(spans(path) =~= seq![]);
}

/// A path of the client, seen from the working directory, without a root at its beginning.
proof fn lemma_seen(client: ClientModel, path: Seq<u8>)
    requires
        well_formed(client),
        !has_root(path),
    ensures
        !has_root(join(client.cwd, path)),
        inner_components(join(client.cwd, path)) == names_below(client, path),
{
    lemma_inner(client.cwd);
    if client.cwd.len() == 0 {
        assert(join(client.cwd, path) =~= path);
        lemma_spans_of_empty(client.cwd);
        assert(names_below(client, path) =~= inner_components(path));
    } else {
        lemma_components_join(client.cwd, path);
    }
}

/// A path of the client is taken from the working directory, or from the root of the server
/// where it begins with a slash; the place that is looked for has the components of the
/// server's root and then those of the path.
pub proof fn law_paths_begin_at_the_root(client: ClientModel, path: Seq<u8>)
    requires
        well_formed(client),
    ensures
        components(complete_path(client, join(client.cwd, path))) == components(
            client.server_root,
        ) + names_below(client, path),
{
    law_complete_path(client, join(client.cwd, path));
    if !has_root(path) {
        lemma_seen(client, path);
    }
}

/// Whether an action is to find the place of the given components below the root of the server.
pub open spec fn looks_for(client: ClientModel, action: ActionModel, names: Seq<Seq<u8>>) -> bool {
    action is Canonicalize && components(action->Canonicalize_0) == components(
        client.server_root,
    ) + names
}

/// A listing is of the path that the client names, from its working directory, and of the
/// working directory where it names none.
pub proof fn law_list_looks_there(client: ClientModel, path: Option<Seq<u8>>)
    requires
        well_formed(client),
        client.stage is Idle,
        client.data_writer,
    ensures
        looks_for(
            client,
            start(client, CommandModel::List(path)).1,
            match path {
                Some(path) => names_below(client, path),
                None => components(client.cwd),
            },
        ),
        start(client, CommandModel::List(path)).1->Canonicalize_0 == complete_path(
            client,
            join(
                client.cwd,
                if path is Some {
                    path->0
                } else {
                    seq![]
                },
            ),
        ),
{
    match path {
        Some(path) => {
            law_paths_begin_at_the_root(client, path);
        },
        None => {
            let none = Seq::<u8>::empty();
            law_paths_begin_at_the_root(client, none);
            lemma_spans_of_empty(none);
            assert(names_below(client, none) =~= components(client.cwd));
        },
    }
}

/// A client changes to the directory that it names, from its working directory.
pub proof fn law_cwd_looks_there(client: ClientModel, directory: Seq<char>)
    requires
        well_formed(client),
        client.stage is Idle,
    ensures
        looks_for(
            client,
            start(client, CommandModel::Cwd(directory)).1,
            names_below(client, encode_utf8(directory)),
        ),
        start(client, CommandModel::Cwd(directory)).1->Canonicalize_0 == complete_path(
            client,
            join(client.cwd, encode_utf8(directory)),
        ),
{
    law_paths_begin_at_the_root(client, encode_utf8(directory));
}

/// The file that is sent is the one that the client names, from its working directory.
pub proof fn law_retr_looks_there(client: ClientModel, path: Seq<u8>)
    requires
        well_formed(client),
        client.stage is Idle,
        client.data_writer,
    ensures
        looks_for(client, start(client, CommandModel::Retr(path)).1, names_below(client, path)),
{
    law_paths_begin_at_the_root(client, path);
}

/// The directory that is removed is the one that the client names, from its working directory.
pub proof fn law_rmd_looks_there(client: ClientModel, path: Seq<u8>)
    requires
        well_formed(client),
        client.stage is Idle,
    ensures
        looks_for(client, start(client, CommandModel::Rmd(path)).1, names_below(client, path)),
{
    law_paths_begin_at_the_root(client, path);
}

/// A directory is created in the one above the path that the client names, from its working
/// directory, and under the last of its components, unless that is `..`.
pub proof fn law_mkd_looks_there(client: ClientModel, path: Seq<u8>)
    requires
        well_formed(client),
        client.stage is Idle,
        names_below(client, path).len() > 0,
    ensures
        looks_for(
            client,
            start(client, CommandModel::Mkd(path)).1,
            names_below(client, path).drop_last(),
        ),
        file_name(join(client.cwd, path)) == (if names_below(client, path).last() == seq![
            46u8,
            46u8,
        ] {
            None
        } else {
            Some(names_below(client, path).last())
        }),
{
    if has_root(path) {
        lemma_mkd_rooted(client, path);
    } else {
        lemma_mkd_relative(client, path);
    }
}

/// What is above a path that begins at the root, and the name at its end.
#[verifier::spinoff_prover]
proof fn lemma_mkd_rooted(client: ClientModel, path: Seq<u8>)
    requires
        well_formed(client),
        has_root(path),
        names_below(client, path).len() > 0,
    ensures
        join(client.cwd, path) == path,
        parent(path) is Some,
        components(complete_path(client, parent(path)->0)) == components(client.server_root)
            + names_below(client, path).drop_last(),
        components(path).last() == names_below(client, path).last(),
        is_single(components(path).last()),
        file_name(path) == (if components(path).last() == seq![46u8, 46u8] {
            None
        } else {
            Some(components(path).last())
        }),
{
    let names = names_below(client, path);
    let all = components(path);
    lemma_components_single(path);
    assert(all.len() > 1);
    assert(all.last() == names.last());
    lemma_name_at_end(path);
    law_parent(path);
    let above = parent(path)->0;
    assert(components(above) == all.drop_last());
    assert(above.len() > 0) by {
        if above.len() == 0 {
            lemma_spans_of_empty(above);
        }
    }
    assert(above[0] == path[0]);
    law_complete_path(client, above);
    assert(components(above).skip(1) =~= names.drop_last());
}

/// What is above a path that is seen from the working directory, and the name at its end.
#[verifier::spinoff_prover]
proof fn lemma_mkd_relative(client: ClientModel, path: Seq<u8>)
    requires
        well_formed(client),
        !has_root(path),
        names_below(client, path).len() > 0,
    ensures
        parent(join(client.cwd, path)) is Some,
        components(complete_path(client, parent(join(client.cwd, path))->0)) == components(
            client.server_root,
        ) + names_below(client, path).drop_last(),
        components(join(client.cwd, path)).last() == names_below(client, path).last(),
        file_name(join(client.cwd, path)) == (if components(join(client.cwd, path)).last() == seq![
            46u8,
            46u8,
        ] {
            None
        } else {
            Some(components(join(client.cwd, path)).last())
        }),
{
    let whole = join(client.cwd, path);
    let names = names_below(client, path);
    let all = components(whole);
    lemma_seen(client, path);
    lemma_inner(whole);
    assert(inner_components(whole) == names);
    assert(all.len() > 0);
    assert(all.last() == names.last());
    lemma_components_single(whole);
    if all.len() == 1 {
        assert(all[0] != seq![46u8]) by {
            if all[0] == seq![46u8] {
                assert(names.len() == 0);
            }
        }
        assert(!has_leading_dot(whole)) by {
            if has_leading_dot(whole) {
                assert(spans(whole)[0] == (0int, 1int));
                assert(all[0] == whole.subrange(0, 1));
                assert(whole.subrange(0, 1) =~= seq![46u8]);
            }
        }
        assert(is_single(all[0]));
    }
    lemma_name_at_end(whole);
    law_parent(whole);
    let above = parent(whole)->0;
    assert(components(above) == all.drop_last());
    assert(!has_root(above)) by {
        if has_root(above) {
            assert(above[0] == whole[0]);
        }
    }
    lemma_inner(above);
    law_complete_path(client, above);
    assert(inner_components(above) =~= names.drop_last());
}

/// A path that ends with a component by itself has a path above it, and that component as its
/// name unless it is `..`.
proof fn lemma_name_at_end(path: Seq<u8>)
    requires
        components(path).len() > 0,
        is_single(components(path).last()),
    ensures
        parent(path) is Some,
        file_name(path) == (if components(path).last() == seq![46u8, 46u8] {
            None
        } else {
            Some(components(path).last())
        }),
{
    let last = components(path).last();
    assert(last != seq![47u8]) by {
        if last == seq![47u8] {
            assert(last[0] == 47);
        }
    }
    law_file_name(path);
    law_parent(path);
    if components(path) == seq![seq![47u8]] {
        assert(last == seq![47u8]);
    }
}

/// The port that a client names is the one that the server listens on for the next data
/// connection.
pub proof fn law_port_then_pasv(client: ClientModel, port: u16)
    requires
        client.stage is Idle,
        !client.data_writer,
    ensures
        ({
            let named = run(client, CommandModel::Port(port), seq![EventModel::Sent]).0;
            &&& named == (ClientModel { data_port: Some(port), ..client })
            &&& start(named, CommandModel::Pasv).1 == ActionModel::Bind(port)
        }),
{
    lemma_answered_at_once(client, CommandModel::Port(port));
    assert(run(client, CommandModel::Port(port), seq![EventModel::Sent]).0 =~= (ClientModel {
        data_port: Some(port),
        ..client
    }));
}

/// A client that asks for a data connection is told the port that the server listens on, and
/// has the connection when it has connected. Where it does not, nothing changes.
pub proof fn law_pasv_connects(client: ClientModel, port: u16, connected: bool)
    requires
        client.stage is Idle,
        !client.data_writer,
    ensures
        ({
            let events = seq![
                EventModel::Bound(port),
                EventModel::Sent,
                EventModel::Connected(connected),
            ];
            let (after, actions) = run(client, CommandModel::Pasv, events);
            &&& can_run(client, CommandModel::Pasv, events)
            &&& after == (if connected {
                ClientModel { data_reader: true, data_writer: true, ..client }
            } else {
                client
            })
            &&& actions[1] == ActionModel::Send(
                AnswerModel {
                    code: ResultCode::EnteringPassiveMode,
                    message: passive_address(port),
                },
            )
        }),
{
    let bound = EventModel::Bound(port);
    let events = seq![bound, EventModel::Sent, EventModel::Connected(connected)];
    assert(events.drop_last() =~= seq![bound, EventModel::Sent]);
    assert(seq![bound, EventModel::Sent].drop_last() =~= seq![bound]);
    assert(seq![bound].drop_last() =~= seq![]);
    reveal_with_fuel(run, 4);
    reveal_with_fuel(can_run, 4);
    assert(run(client, CommandModel::Pasv, events).0 =~= (if connected {
        ClientModel { data_reader: true, data_writer: true, ..client }
    } else {
        client
    }));
}

/// While a data connection is open no second one is opened.
pub proof fn law_one_data_connection(client: ClientModel)
    requires
        client.stage is Idle,
        client.data_writer,
    ensures
        can_run(client, CommandModel::Pasv, seq![EventModel::Sent]),
        run(client, CommandModel::Pasv, seq![EventModel::Sent]).0 == client,
        run(client, CommandModel::Pasv, seq![EventModel::Sent]).1[0] == ActionModel::Send(
            AnswerModel {
                code: ResultCode::DataConnectionAlreadyOpen,
                message: "Already listening..."@,
            },
        ),
{
    lemma_answered_at_once(client, CommandModel::Pasv);
    assert(run(client, CommandModel::Pasv, seq![EventModel::Sent]).0 =~= client);
}

/// One more outcome upon a request.
proof fn lemma_step(
    client: ClientModel,
    command: CommandModel,
    events: Seq<EventModel>,
    event: EventModel,
    before: ClientModel,
)
    requires
        can_run(client, command, events),
        run(client, command, events).0 == before,
        accepts(before, event),
    ensures
        can_run(client, command, events.push(event)),
        run(client, command, events.push(event)).0 == advance(before, event).0,
        run(client, command, events.push(event)).1 == run(client, command, events).1.push(
            advance(before, event).1,
        ),
{
    assert(events.push(event).drop_last() =~= events);
}

/// A file that is sent arrives as it was read, between a reply that announces it and one that
/// closes the data connection.
pub proof fn law_retr_sends_the_file(
    client: ClientModel,
    path: Seq<u8>,
    place: Seq<u8>,
    data: Seq<char>,
)
    requires
        well_formed(client),
        client.stage is Idle,
        client.data_writer,
        starts_with(place, client.server_root),
    ensures
        ({
            let events = seq![
                EventModel::Canonical(Ok(place)),
                EventModel::Checked(true),
                EventModel::Sent,
                EventModel::Contents(data),
                EventModel::DataSent,
                EventModel::Sent,
            ];
            let (after, actions) = run(client, CommandModel::Retr(path), events);
            &&& can_run(client, CommandModel::Retr(path), events)
            &&& after == disconnected(client)
            &&& actions == seq![
                ActionModel::Canonicalize(complete_path(client, join(client.cwd, path))),
                ActionModel::CheckFile(place),
                ActionModel::Send(
                    AnswerModel {
                        code: ResultCode::DataConnectionAlreadyOpen,
                        message: "Starting to send file..."@,
                    },
                ),
                ActionModel::ReadFile(place),
                ActionModel::SendData(data),
                ActionModel::Send(
                    AnswerModel {
                        code: ResultCode::ClosingDataConnection,
                        message: "Transfer done"@,
                    },
                ),
                ActionModel::Done,
            ]
        }),
{
    let command = CommandModel::Retr(path);
    let e1 = EventModel::Canonical(Ok(place));
    let e2 = EventModel::Checked(true);
    let e3 = EventModel::Sent;
    let e4 = EventModel::Contents(data);
    let e5 = EventModel::DataSent;
    let wanted = join(client.cwd, path);
    assert(run(client, command, seq![]).0 == at(client, StageModel::RetrResolve(wanted)));
    lemma_step(client, command, seq![], e1, at(client, StageModel::RetrResolve(wanted)));
    assert(seq![].push(e1) =~= seq![e1]);
    lemma_step(client, command, seq![e1], e2, at(client, StageModel::RetrCheck(place)));
    assert(seq![e1].push(e2) =~= seq![e1, e2]);
    lemma_step(client, command, seq![e1, e2], e3, at(client, StageModel::RetrStart(place)));
    assert(seq![e1, e2].push(e3) =~= seq![e1, e2, e3]);
    lemma_step(client, command, seq![e1, e2, e3], e4, at(client, StageModel::RetrRead));
    assert(seq![e1, e2, e3].push(e4) =~= seq![e1, e2, e3, e4]);
    lemma_step(client, command, seq![e1, e2, e3, e4], e5, at(client, StageModel::Transfer));
    assert(seq![e1, e2, e3, e4].push(e5) =~= seq![e1, e2, e3, e4, e5]);
    lemma_step(
        client,
        command,
        seq![e1, e2, e3, e4, e5],
        e3,
        at(disconnected(client), StageModel::Reply),
    );
    assert(seq![e1, e2, e3, e4, e5].push(e3) =~= seq![e1, e2, e3, e4, e5, e3]);
    assert(run(client, command, seq![e1, e2, e3, e4, e5, e3]).0 =~= disconnected(client));
}

/// A file that is received is written as it came, between a reply that announces it and one
/// that closes the data connection.
pub proof fn law_stor_writes_the_data(client: ClientModel, path: Seq<u8>, data: Seq<char>)
    requires
        well_formed(client),
        client.stage is Idle,
        client.data_writer,
    ensures
        ({
            let events = seq![
                EventModel::Sent,
                EventModel::Received(data),
                EventModel::Written,
                EventModel::Sent,
            ];
            let (after, actions) = run(client, CommandModel::Stor(path), events);
            &&& can_run(client, CommandModel::Stor(path), events)
            &&& after == disconnected(client)
            &&& actions == seq![
                ActionModel::Send(
                    AnswerModel {
                        code: ResultCode::DataConnectionAlreadyOpen,
                        message: "Starting to send file..."@,
                    },
                ),
                ActionModel::ReceiveData,
                ActionModel::WriteFile(join(client.cwd, path), data),
                ActionModel::Send(
                    AnswerModel {
                        code: ResultCode::ClosingDataConnection,
                        message: "Transfer done"@,
                    },
                ),
                ActionModel::Done,
            ]
        }),
{
    let command = CommandModel::Stor(path);
    let e1 = EventModel::Sent;
    let e2 = EventModel::Received(data);
    let e3 = EventModel::Written;
    let wanted = join(client.cwd, path);
    let receiving = ClientModel {
        data_reader: false,
        ..at(client, StageModel::StorReceive(wanted))
    };
    assert(run(client, command, seq![]).0 == at(client, StageModel::StorStart(wanted)));
    lemma_step(client, command, seq![], e1, at(client, StageModel::StorStart(wanted)));
    assert(seq![].push(e1) =~= seq![e1]);
    lemma_step(client, command, seq![e1], e2, receiving);
    assert(seq![e1].push(e2) =~= seq![e1, e2]);
    lemma_step(client, command, seq![e1, e2], e3, at(receiving, StageModel::StorWrite));
    assert(seq![e1, e2].push(e3) =~= seq![e1, e2, e3]);
    lemma_step(
        client,
        command,
        seq![e1, e2, e3],
        e1,
        at(disconnected(client), StageModel::Reply),
    );
    assert(seq![e1, e2, e3].push(e1) =~= seq![e1, e2, e3, e1]);
    assert(run(client, command, seq![e1, e2, e3, e1]).0 =~= disconnected(client));
}

/// A directory that is listed has its entries sent, in order, between a reply that announces
/// them and one that closes the data connection.
pub proof fn law_list_sends_the_entries(
    client: ClientModel,
    path: Option<Seq<u8>>,
    place: Seq<u8>,
    files: Seq<Option<FileInfoModel>>,
)
    requires
        well_formed(client),
        client.stage is Idle,
        client.data_writer,
        starts_with(place, client.server_root),
        have_months(files),
    ensures
        ({
            let events = seq![
                EventModel::Canonical(Ok(place)),
                EventModel::Sent,
                EventModel::Checked(true),
                EventModel::Entries(Some(files)),
                EventModel::DataSent,
                EventModel::Sent,
            ];
            let (after, actions) = run(client, CommandModel::List(path), events);
            &&& can_run(client, CommandModel::List(path), events)
            &&& after == disconnected(client)
            &&& actions == seq![
                start(client, CommandModel::List(path)).1,
                ActionModel::Send(
                    AnswerModel {
                        code: ResultCode::DataConnectionAlreadyOpen,
                        message: "Starting to list directory..."@,
                    },
                ),
                ActionModel::CheckDir(place),
                ActionModel::ReadDir(place),
                ActionModel::SendData(listing(files)),
                ActionModel::Send(
                    AnswerModel {
                        code: ResultCode::ClosingDataConnection,
                        message: "Transfer done"@,
                    },
                ),
                ActionModel::Done,
            ]
        }),
{
    let command = CommandModel::List(path);
    let e1 = EventModel::Canonical(Ok(place));
    let e2 = EventModel::Sent;
    let e3 = EventModel::Checked(true);
    let e4 = EventModel::Entries(Some(files));
    let e5 = EventModel::DataSent;
    lemma_list_announced(client, path, place);
    lemma_step(client, command, seq![e1, e2], e3, at(client, StageModel::ListCheck(place)));
    assert(seq![e1, e2].push(e3) =~= seq![e1, e2, e3]);
    lemma_step(client, command, seq![e1, e2, e3], e4, at(client, StageModel::ListRead));
    assert(seq![e1, e2, e3].push(e4) =~= seq![e1, e2, e3, e4]);
    lemma_step(client, command, seq![e1, e2, e3, e4], e5, at(client, StageModel::Transfer));
    assert(seq![e1, e2, e3, e4].push(e5) =~= seq![e1, e2, e3, e4, e5]);
    lemma_step(
        client,
        command,
        seq![e1, e2, e3, e4, e5],
        e2,
        at(disconnected(client), StageModel::Reply),
    );
    assert(seq![e1, e2, e3, e4, e5].push(e2) =~= seq![e1, e2, e3, e4, e5, e2]);
    assert(run(client, command, seq![e1, e2, e3, e4, e5, e2]).0 =~= disconnected(client));
}

/// A directory is created in the place of the one above it, under its own name, and the client
/// is told whether that was done.
pub proof fn law_mkd_creates(client: ClientModel, path: Seq<u8>, place: Seq<u8>, created: bool)
    requires
        well_formed(client),
        client.stage is Idle,
        starts_with(place, client.server_root),
        parent(join(client.cwd, path)) is Some,
        file_name(join(client.cwd, path)) is Some,
    ensures
        ({
            let events = seq![
                EventModel::Canonical(Ok(place)),
                EventModel::Checked(true),
                EventModel::Created(created),
                EventModel::Sent,
            ];
            let (after, actions) = run(client, CommandModel::Mkd(path), events);
            &&& can_run(client, CommandModel::Mkd(path), events)
            &&& after == client
            &&& actions == seq![
                ActionModel::Canonicalize(
                    complete_path(client, parent(join(client.cwd, path))->0),
                ),
                ActionModel::CheckDir(place),
                ActionModel::CreateDir(join(place, file_name(join(client.cwd, path))->0)),
                ActionModel::Send(
                    if created {
                        AnswerModel {
                            code: ResultCode::PATHNAMECreated,
                            message: "Folder successfully created!"@,
                        }
                    } else {
                        AnswerModel {
                            code: ResultCode::FileNotFound,
                            message: "Couldn't create folder"@,
                        }
                    },
                ),
                ActionModel::Done,
            ]
        }),
{
    let command = CommandModel::Mkd(path);
    let wanted = join(client.cwd, path);
    let e1 = EventModel::Canonical(Ok(place));
    let e2 = EventModel::Checked(true);
    let e3 = EventModel::Created(created);
    let e4 = EventModel::Sent;
    assert(run(client, command, seq![]).0 == at(client, StageModel::MkdResolve(wanted)));
    lemma_step(client, command, seq![], e1, at(client, StageModel::MkdResolve(wanted)));
    assert(seq![].push(e1) =~= seq![e1]);
    lemma_step(client, command, seq![e1], e2, at(client, StageModel::MkdCheck(place, wanted)));
    assert(seq![e1].push(e2) =~= seq![e1, e2]);
    lemma_step(client, command, seq![e1, e2], e3, at(client, StageModel::MkdCreate));
    assert(seq![e1, e2].push(e3) =~= seq![e1, e2, e3]);
    lemma_step(client, command, seq![e1, e2, e3], e4, at(client, StageModel::Reply));
    assert(seq![e1, e2, e3].push(e4) =~= seq![e1, e2, e3, e4]);
    assert(run(client, command, seq![e1, e2, e3, e4]).0 =~= client);
}

/// A directory is removed at its place, and the client is told whether that was done.
pub proof fn law_rmd_removes(client: ClientModel, path: Seq<u8>, place: Seq<u8>, removed: bool)
    requires
        well_formed(client),
        client.stage is Idle,
        starts_with(place, client.server_root),
    ensures
        ({
            let events = seq![
                EventModel::Canonical(Ok(place)),
                EventModel::Removed(removed),
                EventModel::Sent,
            ];
            let (after, actions) = run(client, CommandModel::Rmd(path), events);
            &&& can_run(client, CommandModel::Rmd(path), events)
            &&& after == client
            &&& actions == seq![
                ActionModel::Canonicalize(complete_path(client, join(client.cwd, path))),
                ActionModel::RemoveDir(place),
                ActionModel::Send(
                    if removed {
                        AnswerModel {
                            code: ResultCode::RequestedFileActionOkay,
                            message: "Folder successfully removed"@,
                        }
                    } else {
                        AnswerModel {
                            code: ResultCode::FileNotFound,
                            message: "Couldn't remove folder"@,
                        }
                    },
                ),
                ActionModel::Done,
            ]
        }),
{
    let command = CommandModel::Rmd(path);
    let e1 = EventModel::Canonical(Ok(place));
    let e2 = EventModel::Removed(removed);
    let e3 = EventModel::Sent;
    assert(run(client, command, seq![]).0 == at(client, StageModel::RmdResolve));
    lemma_step(client, command, seq![], e1, at(client, StageModel::RmdResolve));
    assert(seq![].push(e1) =~= seq![e1]);
    lemma_step(client, command, seq![e1], e2, at(client, StageModel::RmdRemove));
    assert(seq![e1].push(e2) =~= seq![e1, e2]);
    lemma_step(client, command, seq![e1, e2], e3, at(client, StageModel::Reply));
    assert(seq![e1, e2].push(e3) =~= seq![e1, e2, e3]);
    assert(run(client, command, seq![e1, e2, e3]).0 =~= client);
}

/// A client that asks for a file that is not there, or that lies outside the directory that
/// the server serves, is told that it does not exist; the data connection is closed.
pub proof fn law_retr_refused(
    client: ClientModel,
    path: Seq<u8>,
    found: Result<Seq<u8>, std::io::Error>,
)
    requires
        well_formed(client),
        client.stage is Idle,
        client.data_writer,
        found matches Ok(place) ==> !starts_with(place, client.server_root),
        valid_utf8(join(client.cwd, path)),
    ensures
        ({
            let events = seq![EventModel::Canonical(found), EventModel::Sent, EventModel::Sent];
            let (after, actions) = run(client, CommandModel::Retr(path), events);
            &&& can_run(client, CommandModel::Retr(path), events)
            &&& after == disconnected(client)
            &&& actions == seq![
                ActionModel::Canonicalize(complete_path(client, join(client.cwd, path))),
                ActionModel::Send(
                    AnswerModel {
                        code: ResultCode::LocalErrorInProcessing,
                        message: missing(join(client.cwd, path)),
                    },
                ),
                ActionModel::Send(
                    AnswerModel {
                        code: ResultCode::ClosingDataConnection,
                        message: "Transfer done"@,
                    },
                ),
                ActionModel::Done,
            ]
        }),
{
    let command = CommandModel::Retr(path);
    let wanted = join(client.cwd, path);
    let e1 = EventModel::Canonical(found);
    let e2 = EventModel::Sent;
    assert(run(client, command, seq![]).0 == at(client, StageModel::RetrResolve(wanted)));
    lemma_step(client, command, seq![], e1, at(client, StageModel::RetrResolve(wanted)));
    assert(seq![].push(e1) =~= seq![e1]);
    lemma_refused(client, command, seq![e1]);
    assert(seq![e1].push(e2).push(e2) =~= seq![e1, e2, e2]);
}

/// A client that asks for what is no file is told that it does not exist; the data connection
/// is closed.
pub proof fn law_retr_no_file(client: ClientModel, path: Seq<u8>, place: Seq<u8>)
    requires
        well_formed(client),
        client.stage is Idle,
        client.data_writer,
        starts_with(place, client.server_root),
        valid_utf8(place),
    ensures
        ({
            let events = seq![
                EventModel::Canonical(Ok(place)),
                EventModel::Checked(false),
                EventModel::Sent,
                EventModel::Sent,
            ];
            let (after, actions) = run(client, CommandModel::Retr(path), events);
            &&& can_run(client, CommandModel::Retr(path), events)
            &&& after == disconnected(client)
            &&& actions == seq![
                ActionModel::Canonicalize(complete_path(client, join(client.cwd, path))),
                ActionModel::CheckFile(place),
                ActionModel::Send(
                    AnswerModel {
                        code: ResultCode::LocalErrorInProcessing,
                        message: missing(place),
                    },
                ),
                ActionModel::Send(
                    AnswerModel {
                        code: ResultCode::ClosingDataConnection,
                        message: "Transfer done"@,
                    },
                ),
                ActionModel::Done,
            ]
        }),
{
    let command = CommandModel::Retr(path);
    let wanted = join(client.cwd, path);
    let e1 = EventModel::Canonical(Ok(place));
    let e2 = EventModel::Checked(false);
    let e3 = EventModel::Sent;
    assert(run(client, command, seq![]).0 == at(client, StageModel::RetrResolve(wanted)));
    lemma_step(client, command, seq![], e1, at(client, StageModel::RetrResolve(wanted)));
    assert(seq![].push(e1) =~= seq![e1]);
    lemma_step(client, command, seq![e1], e2, at(client, StageModel::RetrCheck(place)));
    assert(seq![e1].push(e2) =~= seq![e1, e2]);
    lemma_refused(client, command, seq![e1, e2]);
    assert(seq![e1, e2].push(e3).push(e3) =~= seq![e1, e2, e3, e3]);
}

/// The end of a transfer that was refused.
proof fn lemma_refused(client: ClientModel, command: CommandModel, events: Seq<EventModel>)
    requires
        can_run(client, command, events),
        client.stage is Idle,
        run(client, command, events).0 == at(client, StageModel::Refuse),
    ensures
        ({
            let longer = events.push(EventModel::Sent).push(EventModel::Sent);
            &&& can_run(client, command, longer)
            &&& run(client, command, longer).0 == disconnected(client)
            &&& run(client, command, longer).1 == run(client, command, events).1.push(
                ActionModel::Send(
                    AnswerModel {
                        code: ResultCode::ClosingDataConnection,
                        message: "Transfer done"@,
                    },
                ),
            ).push(ActionModel::Done)
        }),
{
    let sent = EventModel::Sent;
    lemma_step(client, command, events, sent, at(client, StageModel::Refuse));
    lemma_step(
        client,
        command,
        events.push(sent),
        sent,
        at(disconnected(client), StageModel::Reply),
    );
    assert(run(client, command, events.push(sent).push(sent)).0 =~= disconnected(client));
}

/// A client that asks for the listing of what is not there, or of what lies outside the
/// directory that the server serves, is told that there is none; the data connection is
/// closed.
pub proof fn law_list_refused(
    client: ClientModel,
    path: Option<Seq<u8>>,
    found: Result<Seq<u8>, std::io::Error>,
)
    requires
        well_formed(client),
        client.stage is Idle,
        client.data_writer,
        found matches Ok(place) ==> !starts_with(place, client.server_root),
    ensures
        ({
            let events = seq![EventModel::Canonical(found), EventModel::Sent, EventModel::Sent];
            let (after, actions) = run(client, CommandModel::List(path), events);
            &&& can_run(client, CommandModel::List(path), events)
            &&& after == disconnected(client)
            &&& actions == seq![
                start(client, CommandModel::List(path)).1,
                ActionModel::Send(
                    AnswerModel {
                        code: ResultCode::InvalidParameterOrArgument,
                        message: "No such file or directory"@,
                    },
                ),
                ActionModel::Send(
                    AnswerModel {
                        code: ResultCode::ClosingDataConnection,
                        message: "Transfer done"@,
                    },
                ),
                ActionModel::Done,
            ]
        }),
{
    let command = CommandModel::List(path);
    let e1 = EventModel::Canonical(found);
    let e2 = EventModel::Sent;
    assert(run(client, command, seq![]).0 == at(client, StageModel::ListResolve));
    lemma_step(client, command, seq![], e1, at(client, StageModel::ListResolve));
    assert(seq![].push(e1) =~= seq![e1]);
    lemma_refused(client, command, seq![e1]);
    assert(seq![e1].push(e2).push(e2) =~= seq![e1, e2, e2]);
}

/// A directory that cannot be read is announced and then not sent: the client is told that
/// there is none, and the data connection stays open.
pub proof fn law_list_unreadable(client: ClientModel, path: Option<Seq<u8>>, place: Seq<u8>)
    requires
        well_formed(client),
        client.stage is Idle,
        client.data_writer,
        starts_with(place, client.server_root),
    ensures
        ({
            let events = seq![
                EventModel::Canonical(Ok(place)),
                EventModel::Sent,
                EventModel::Checked(true),
                EventModel::Entries(None),
                EventModel::Sent,
            ];
            let (after, actions) = run(client, CommandModel::List(path), events);
            &&& can_run(client, CommandModel::List(path), events)
            &&& after == client
            &&& actions == seq![
                start(client, CommandModel::List(path)).1,
                ActionModel::Send(
                    AnswerModel {
                        code: ResultCode::DataConnectionAlreadyOpen,
                        message: "Starting to list directory..."@,
                    },
                ),
                ActionModel::CheckDir(place),
                ActionModel::ReadDir(place),
                ActionModel::Send(
                    AnswerModel {
                        code: ResultCode::InvalidParameterOrArgument,
                        message: "No such file or directory"@,
                    },
                ),
                ActionModel::Done,
            ]
        }),
{
    let command = CommandModel::List(path);
    let e1 = EventModel::Canonical(Ok(place));
    let e2 = EventModel::Sent;
    let e3 = EventModel::Checked(true);
    let e4 = EventModel::Entries(None);
    lemma_list_announced(client, path, place);
    lemma_step(client, command, seq![e1, e2], e3, at(client, StageModel::ListCheck(place)));
    assert(seq![e1, e2].push(e3) =~= seq![e1, e2, e3]);
    lemma_step(client, command, seq![e1, e2, e3], e4, at(client, StageModel::ListRead));
    assert(seq![e1, e2, e3].push(e4) =~= seq![e1, e2, e3, e4]);
    lemma_step(client, command, seq![e1, e2, e3, e4], e2, at(client, StageModel::Reply));
    assert(seq![e1, e2, e3, e4].push(e2) =~= seq![e1, e2, e3, e4, e2]);
    assert(run(client, command, seq![e1, e2, e3, e4, e2]).0 =~= client);
}

/// The beginning of a listing.
proof fn lemma_list_announced(client: ClientModel, path: Option<Seq<u8>>, place: Seq<u8>)
    requires
        client.stage is Idle,
        client.data_writer,
        starts_with(place, client.server_root),
    ensures
        ({
            let events = seq![EventModel::Canonical(Ok(place)), EventModel::Sent];
            let (after, actions) = run(client, CommandModel::List(path), events);
            &&& can_run(client, CommandModel::List(path), events)
            &&& after == at(client, StageModel::ListCheck(place))
            &&& actions == seq![
                start(client, CommandModel::List(path)).1,
                ActionModel::Send(
                    AnswerModel {
                        code: ResultCode::DataConnectionAlreadyOpen,
                        message: "Starting to list directory..."@,
                    },
                ),
                ActionModel::CheckDir(place),
            ]
        }),
{
    let command = CommandModel::List(path);
    let e1 = EventModel::Canonical(Ok(place));
    let e2 = EventModel::Sent;
    assert(run(client, command, seq![]).0 == at(client, StageModel::ListResolve));
    lemma_step(client, command, seq![], e1, at(client, StageModel::ListResolve));
    assert(seq![].push(e1) =~= seq![e1]);
    lemma_step(client, command, seq![e1], e2, at(client, StageModel::ListStart(place)));
    assert(seq![e1].push(e2) =~= seq![e1, e2]);
}

/// What is no directory is listed as one file.
pub proof fn law_list_sends_a_file(
    client: ClientModel,
    path: Option<Seq<u8>>,
    place: Seq<u8>,
    info: Option<FileInfoModel>,
)
    requires
        well_formed(client),
        client.stage is Idle,
        client.data_writer,
        starts_with(place, client.server_root),
        has_month(info),
    ensures
        ({
            let events = seq![
                EventModel::Canonical(Ok(place)),
                EventModel::Sent,
                EventModel::Checked(false),
                EventModel::Inspected(info),
                EventModel::DataSent,
                EventModel::Sent,
            ];
            let (after, actions) = run(client, CommandModel::List(path), events);
            &&& can_run(client, CommandModel::List(path), events)
            &&& after == disconnected(client)
            &&& actions == seq![
                start(client, CommandModel::List(path)).1,
                ActionModel::Send(
                    AnswerModel {
                        code: ResultCode::DataConnectionAlreadyOpen,
                        message: "Starting to list directory..."@,
                    },
                ),
                ActionModel::CheckDir(place),
                ActionModel::Inspect(place),
                ActionModel::SendData(listing(seq![info])),
                ActionModel::Send(
                    AnswerModel {
                        code: ResultCode::ClosingDataConnection,
                        message: "Transfer done"@,
                    },
                ),
                ActionModel::Done,
            ]
        }),
{
    let command = CommandModel::List(path);
    let e1 = EventModel::Canonical(Ok(place));
    let e2 = EventModel::Sent;
    let e3 = EventModel::Checked(false);
    let e4 = EventModel::Inspected(info);
    let e5 = EventModel::DataSent;
    lemma_list_announced(client, path, place);
    lemma_step(client, command, seq![e1, e2], e3, at(client, StageModel::ListCheck(place)));
    assert(seq![e1, e2].push(e3) =~= seq![e1, e2, e3]);
    lemma_step(client, command, seq![e1, e2, e3], e4, at(client, StageModel::ListInspect));
    assert(seq![e1, e2, e3].push(e4) =~= seq![e1, e2, e3, e4]);
    lemma_step(client, command, seq![e1, e2, e3, e4], e5, at(client, StageModel::Transfer));
    assert(seq![e1, e2, e3, e4].push(e5) =~= seq![e1, e2, e3, e4, e5]);
    lemma_step(
        client,
        command,
        seq![e1, e2, e3, e4, e5],
        e2,
        at(disconnected(client), StageModel::Reply),
    );
    assert(seq![e1, e2, e3, e4, e5].push(e2) =~= seq![e1, e2, e3, e4, e5, e2]);
    assert(run(client, command, seq![e1, e2, e3, e4, e5, e2]).0 =~= disconnected(client));
}

/// A directory is not created where the one above it is not there or lies outside the
/// directory that the server serves; the client is told so, and nothing changes.
pub proof fn law_mkd_refused(
    client: ClientModel,
    path: Seq<u8>,
    found: Result<Seq<u8>, std::io::Error>,
)
    requires
        well_formed(client),
        client.stage is Idle,
        found matches Ok(place) ==> !starts_with(place, client.server_root),
        parent(join(client.cwd, path)) is Some,
    ensures
        ({
            let events = seq![EventModel::Canonical(found), EventModel::Sent];
            let (after, actions) = run(client, CommandModel::Mkd(path), events);
            &&& can_run(client, CommandModel::Mkd(path), events)
            &&& after == client
            &&& actions == seq![
                ActionModel::Canonicalize(
                    complete_path(client, parent(join(client.cwd, path))->0),
                ),
                ActionModel::Send(
                    AnswerModel {
                        code: ResultCode::FileNotFound,
                        message: "Couldn't create folder"@,
                    },
                ),
                ActionModel::Done,
            ]
        }),
{
    let command = CommandModel::Mkd(path);
    let wanted = join(client.cwd, path);
    let e1 = EventModel::Canonical(found);
    let e2 = EventModel::Sent;
    assert(run(client, command, seq![]).0 == at(client, StageModel::MkdResolve(wanted)));
    lemma_step(client, command, seq![], e1, at(client, StageModel::MkdResolve(wanted)));
    assert(seq![].push(e1) =~= seq![e1]);
    lemma_step(client, command, seq![e1], e2, at(client, StageModel::Reply));
    assert(seq![e1].push(e2) =~= seq![e1, e2]);
    assert(run(client, command, seq![e1, e2]).0 =~= client);
}

/// A directory that is not there, or that lies outside the one that the server serves, is not
/// removed; the client is told so, and nothing changes.
pub proof fn law_rmd_refused(
    client: ClientModel,
    path: Seq<u8>,
    found: Result<Seq<u8>, std::io::Error>,
)
    requires
        well_formed(client),
        client.stage is Idle,
        found matches Ok(place) ==> !starts_with(place, client.server_root),
    ensures
        ({
            let events = seq![EventModel::Canonical(found), EventModel::Sent];
            let (after, actions) = run(client, CommandModel::Rmd(path), events);
            &&& can_run(client, CommandModel::Rmd(path), events)
            &&& after == client
            &&& actions == seq![
                ActionModel::Canonicalize(complete_path(client, join(client.cwd, path))),
                ActionModel::Send(
                    AnswerModel {
                        code: ResultCode::FileNotFound,
                        message: "Couldn't remove folder"@,
                    },
                ),
                ActionModel::Done,
            ]
        }),
{
    let command = CommandModel::Rmd(path);
    let e1 = EventModel::Canonical(found);
    let e2 = EventModel::Sent;
    assert(run(client, command, seq![]).0 == at(client, StageModel::RmdResolve));
    lemma_step(client, command, seq![], e1, at(client, StageModel::RmdResolve));
    assert(seq![].push(e1) =~= seq![e1]);
    lemma_step(client, command, seq![e1], e2, at(client, StageModel::Reply));
    assert(seq![e1].push(e2) =~= seq![e1, e2]);
    assert(run(client, command, seq![e1, e2]).0 =~= client);
}

/// A session that is to end without a data connection says so and closes the control
/// connection.
pub proof fn law_quit_closes(client: ClientModel)
    requires
        client.stage is Idle,
        !client.data_writer,
    ensures
        ({
            let events = seq![EventModel::Sent, EventModel::Closed];
            let (after, actions) = run(client, CommandModel::Quit, events);
            &&& can_run(client, CommandModel::Quit, events)
            &&& after == client
            &&& actions == seq![
                ActionModel::Send(
                    AnswerModel {
                        code: ResultCode::ServiceClosingControlConnection,
                        message: "Closing connection..."@,
                    },
                ),
                ActionModel::CloseControl,
                ActionModel::Done,
            ]
        }),
{
    let command = CommandModel::Quit;
    let e1 = EventModel::Sent;
    let e2 = EventModel::Closed;
    assert(run(client, command, seq![]).0 == at(client, StageModel::QuitReply));
    lemma_step(client, command, seq![], e1, at(client, StageModel::QuitReply));
    assert(seq![].push(e1) =~= seq![e1]);
    lemma_step(client, command, seq![e1], e2, at(client, StageModel::QuitClose));
    assert(seq![e1].push(e2) =~= seq![e1, e2]);
    assert(run(client, command, seq![e1, e2]).0 =~= client);
}

/// `AUTH` is not implemented.
pub proof fn law_auth_answer(client: ClientModel)
    requires
        client.stage is Idle,
    ensures
        ({
            let (after, actions) = run(client, CommandModel::Auth, seq![EventModel::Sent]);
            &&& can_run(client, CommandModel::Auth, seq![EventModel::Sent])
            &&& after == client
            &&& actions == seq![
                ActionModel::Send(
                    AnswerModel {
                        code: ResultCode::CommandNotImplemented,
                        message: "Not implemented"@,
                    },
                ),
                ActionModel::Done,
            ]
        }),
{
    lemma_answered_at_once(client, CommandModel::Auth);
    assert(run(client, CommandModel::Auth, seq![EventModel::Sent]).0 =~= client);
}

/// The server does not tell what system it runs on.
pub proof fn law_syst_answer(client: ClientModel)
    requires
        client.stage is Idle,
    ensures
        ({
            let (after, actions) = run(client, CommandModel::Syst, seq![EventModel::Sent]);
            &&& can_run(client, CommandModel::Syst, seq![EventModel::Sent])
            &&& after == client
            &&& actions == seq![
                ActionModel::Send(
                    AnswerModel {
                        code: ResultCode::CommandOkay,
                        message: "I won't tell!"@,
                    },
                ),
                ActionModel::Done,
            ]
        }),
{
    lemma_answered_at_once(client, CommandModel::Syst);
    assert(run(client, CommandModel::Syst, seq![EventModel::Sent]).0 =~= client);
}

/// `NOOP` does nothing.
pub proof fn law_noop_answer(client: ClientModel)
    requires
        client.stage is Idle,
    ensures
        ({
            let (after, actions) = run(client, CommandModel::NoOp, seq![EventModel::Sent]);
            &&& can_run(client, CommandModel::NoOp, seq![EventModel::Sent])
            &&& after == client
            &&& actions == seq![
                ActionModel::Send(
                    AnswerModel {
                        code: ResultCode::CommandOkay,
                        message: "Doing nothing"@,
                    },
                ),
                ActionModel::Done,
            ]
        }),
{
    lemma_answered_at_once(client, CommandModel::NoOp);
    assert(run(client, CommandModel::NoOp, seq![EventModel::Sent]).0 =~= client);
}

/// A transfer type is taken over.
pub proof fn law_type_answer(client: ClientModel, typ: TransferType)
    requires
        client.stage is Idle,
    ensures
        ({
            let (after, actions) = run(client, CommandModel::Type(typ), seq![EventModel::Sent]);
            &&& can_run(client, CommandModel::Type(typ), seq![EventModel::Sent])
            &&& after == (ClientModel { transfer_type: typ, ..client })
            &&& actions == seq![
                ActionModel::Send(
                    AnswerModel {
                        code: ResultCode::CommandOkay,
                        message: "Transfer type changed successfully"@,
                    },
                ),
                ActionModel::Done,
            ]
        }),
{
    lemma_answered_at_once(client, CommandModel::Type(typ));
    assert(run(client, CommandModel::Type(typ), seq![EventModel::Sent]).0 =~= (ClientModel {
        transfer_type: typ,
        ..client
    }));
}

/// A client logs in under the name that it gives, and is welcomed by it.
pub proof fn law_login_answer(client: ClientModel, name: Seq<char>)
    requires
        client.stage is Idle,
        name.len() > 0,
    ensures
        ({
            let (after, actions) = run(client, CommandModel::User(name), seq![EventModel::Sent]);
            &&& can_run(client, CommandModel::User(name), seq![EventModel::Sent])
            &&& after == (ClientModel { name: Some(name), ..client })
            &&& actions == seq![
                ActionModel::Send(
                    AnswerModel {
                        code: ResultCode::UserloggedIn,
                        message: "Welcome "@ + name + "!"@,
                    },
                ),
                ActionModel::Done,
            ]
        }),
{
    lemma_answered_at_once(client, CommandModel::User(name));
    assert(run(client, CommandModel::User(name), seq![EventModel::Sent]).0 =~= (ClientModel {
        name: Some(name),
        ..client
    }));
}

/// Nobody logs in under the empty name.
pub proof fn law_login_refused(client: ClientModel, name: Seq<char>)
    requires
        client.stage is Idle,
        name.len() == 0,
    ensures
        ({
            let (after, actions) = run(client, CommandModel::User(name), seq![EventModel::Sent]);
            &&& can_run(client, CommandModel::User(name), seq![EventModel::Sent])
            &&& after == client
            &&& actions == seq![
                ActionModel::Send(
                    AnswerModel {
                        code: ResultCode::InvalidParameterOrArgument,
                        message: "Invalid username"@,
                    },
                ),
                ActionModel::Done,
            ]
        }),
{
    lemma_answered_at_once(client, CommandModel::User(name));
    assert(run(client, CommandModel::User(name), seq![EventModel::Sent]).0 =~= client);
}

/// A port is taken over, and the client is told its number.
pub proof fn law_port_answer(client: ClientModel, port: u16)
    requires
        client.stage is Idle,
    ensures
        ({
            let (after, actions) = run(client, CommandModel::Port(port), seq![EventModel::Sent]);
            &&& can_run(client, CommandModel::Port(port), seq![EventModel::Sent])
            &&& after == (ClientModel { data_port: Some(port), ..client })
            &&& actions == seq![
                ActionModel::Send(
                    AnswerModel {
                        code: ResultCode::CommandOkay,
                        message: "Data port is now "@ + numeral(port as nat),
                    },
                ),
                ActionModel::Done,
            ]
        }),
{
    lemma_answered_at_once(client, CommandModel::Port(port));
    assert(run(client, CommandModel::Port(port), seq![EventModel::Sent]).0 =~= (ClientModel {
        data_port: Some(port),
        ..client
    }));
}

/// A client is told the verb that is not known.
pub proof fn law_unknown_answer(client: ClientModel, verb: Seq<char>)
    requires
        client.stage is Idle,
    ensures
        ({
            let (after, actions) = run(client, CommandModel::Unknown(verb), seq![EventModel::Sent]);
            &&& can_run(client, CommandModel::Unknown(verb), seq![EventModel::Sent])
            &&& after == client
            &&& actions == seq![
                ActionModel::Send(
                    AnswerModel {
                        code: ResultCode::UnknownCommand,
                        message: "\""@ + verb + "\": Not implemented"@,
                    },
                ),
                ActionModel::Done,
            ]
        }),
{
    lemma_answered_at_once(client, CommandModel::Unknown(verb));
    assert(run(client, CommandModel::Unknown(verb), seq![EventModel::Sent]).0 =~= client);
}

/// A working directory that is not text is not shown.
pub proof fn law_pwd_not_text(client: ClientModel)
    requires
        client.stage is Idle,
        !valid_utf8(client.cwd),
    ensures
        ({
            let (after, actions) = run(client, CommandModel::Pwd, seq![EventModel::Sent]);
            &&& can_run(client, CommandModel::Pwd, seq![EventModel::Sent])
            &&& after == client
            &&& actions == seq![
                ActionModel::Send(
                    AnswerModel {
                        code: ResultCode::FileNotFound,
                        message: "No such file or directory"@,
                    },
                ),
                ActionModel::Done,
            ]
        }),
{
    lemma_answered_at_once(client, CommandModel::Pwd);
    assert(run(client, CommandModel::Pwd, seq![EventModel::Sent]).0 =~= client);
}

/// No directory is created where there is none above it.
pub proof fn law_mkd_nowhere(client: ClientModel, path: Seq<u8>)
    requires
        client.stage is Idle,
        parent(join(client.cwd, path)) is None,
    ensures
        ({
            let (after, actions) = run(client, CommandModel::Mkd(path), seq![EventModel::Sent]);
            &&& can_run(client, CommandModel::Mkd(path), seq![EventModel::Sent])
            &&& after == client
            &&& actions == seq![
                ActionModel::Send(
                    AnswerModel {
                        code: ResultCode::FileNotFound,
                        message: "Couldn't create folder"@,
                    },
                ),
                ActionModel::Done,
            ]
        }),
{
    lemma_answered_at_once(client, CommandModel::Mkd(path));
    assert(run(client, CommandModel::Mkd(path), seq![EventModel::Sent]).0 =~= client);
}

/// No directory is created in what is no directory, nor under what is no name; the client is
/// told so, and nothing changes.
pub proof fn law_mkd_no_directory(client: ClientModel, path: Seq<u8>, place: Seq<u8>, there: bool)
    requires
        well_formed(client),
        client.stage is Idle,
        starts_with(place, client.server_root),
        parent(join(client.cwd, path)) is Some,
        !there || file_name(join(client.cwd, path)) is None,
    ensures
        ({
            let events = seq![
                EventModel::Canonical(Ok(place)),
                EventModel::Checked(there),
                EventModel::Sent,
            ];
            let (after, actions) = run(client, CommandModel::Mkd(path), events);
            &&& can_run(client, CommandModel::Mkd(path), events)
            &&& after == client
            &&& actions == seq![
                ActionModel::Canonicalize(
                    complete_path(client, parent(join(client.cwd, path))->0),
                ),
                ActionModel::CheckDir(place),
                ActionModel::Send(
                    AnswerModel {
                        code: ResultCode::FileNotFound,
                        message: "Couldn't create folder"@,
                    },
                ),
                ActionModel::Done,
            ]
        }),
{
    let command = CommandModel::Mkd(path);
    let wanted = join(client.cwd, path);
    let e1 = EventModel::Canonical(Ok(place));
    let e2 = EventModel::Checked(there);
    let e3 = EventModel::Sent;
    assert(run(client, command, seq![]).0 == at(client, StageModel::MkdResolve(wanted)));
    lemma_step(client, command, seq![], e1, at(client, StageModel::MkdResolve(wanted)));
    assert(seq![].push(e1) =~= seq![e1]);
    lemma_step(client, command, seq![e1], e2, at(client, StageModel::MkdCheck(place, wanted)));
    assert(seq![e1].push(e2) =~= seq![e1, e2]);
    lemma_step(client, command, seq![e1, e2], e3, at(client, StageModel::Reply));
    assert(seq![e1, e2].push(e3) =~= seq![e1, e2, e3]);
    assert(run(client, command, seq![e1, e2, e3]).0 =~= client);
}

/// A file that is not there is named by the text of its path.
pub proof fn law_missing(text: Seq<char>)
    ensures
        missing(encode_utf8(text)) == "\""@ + text + "\" doesn't exist"@,
{
    encode_utf8_decode_utf8(text);
}

/// A month has a name where it is one of the twelve from January on, and a listing can be made
/// where each month has one.
pub proof fn law_months(files: Seq<Option<FileInfoModel>>)
    ensures
        have_months(files) <==> forall|k: int|
            0 <= k < files.len() && #[trigger] files[k] is Some ==> 0 <= files[k]->0.time.month
                < 12,
{
}

/// A session begins at the root of the server, without a data connection, a port or a name, and
/// with the transfer type ASCII.
pub proof fn law_initial(server_root: Seq<u8>)
    ensures
        initial(server_root).cwd.len() == 0,
        initial(server_root).data_port is None,
        !initial(server_root).data_reader,
        !initial(server_root).data_writer,
        initial(server_root).name is None,
        initial(server_root).server_root == server_root,
        initial(server_root).transfer_type == TransferType::Ascii,
        initial(server_root).stage is Idle,
{
}

}
