//! What holds of every session.

use crate::cmd::CommandModel;
use crate::ftp::{AnswerModel, ResultCode};
use crate::path::{
    climbs, components, file_name, has_root, is_single, join, lemma_components_join,
    lemma_components_parent, lemma_components_single, lemma_single, lemma_strip_prefix, spans,
    starts_with, DOT, SLASH,
};
use crate::session::{
    accepts, advance, at, confined, initial, is_transferring, permitted, ready, start,
    well_formed, ActionModel, ClientModel, EventModel, StageModel,
};
use vstd::prelude::*;
use vstd::utf8::*;

verus! {

/// A session is well formed when it begins, on a server of a directory with a name.
pub proof fn law_initial_well_formed(server_root: Seq<u8>)
    requires
        server_root.len() > 0,
    ensures
        well_formed(initial(server_root)),
{
}

/// A request leaves a session well formed, and no action that it asks for first looks or
/// acts outside the directory that the server serves.
pub proof fn law_start_confined(client: ClientModel, command: CommandModel)
    requires
        well_formed(client),
        ready(client, command),
    ensures
        well_formed(start(client, command).0),
        confined(client.server_root, start(client, command).1),
{
    lemma_components_parent(client.cwd);
}

/// A file in a directory that begins with some components begins with them too.
pub proof fn law_entry_confined(place: Seq<u8>, path: Seq<u8>, server_root: Seq<u8>)
    requires
        server_root.len() > 0,
        starts_with(place, server_root),
        file_name(path) is Some,
    ensures
        starts_with(join(place, file_name(path)->0), server_root),
        components(join(place, file_name(path)->0)) == components(place).push(file_name(path)->0),
{
    let name = file_name(path)->0;
    lemma_components_single(path);
    lemma_components_single(server_root);
    assert(is_single(name));
    lemma_single(name);
    assert(place.len() > 0) by {
        if place.len() == 0 {
            assert(spans(place) =~= seq![]);
        }
    }
    lemma_components_join(place, name);
    assert(components(join(place, name)) =~= components(place).push(name));
}

/// The outcome of an action leaves a session well formed, and no action that follows looks
/// or acts outside the directory that the server serves.
pub proof fn law_advance_confined(client: ClientModel, event: EventModel)
    requires
        well_formed(client),
        accepts(client, event),
    ensures
        well_formed(advance(client, event).0),
        confined(client.server_root, advance(client, event).1),
{
    match client.stage {
        StageModel::CwdResolve(_) => {
            if permitted(client, event->Canonical_0) is Some {
                lemma_strip_prefix(permitted(client, event->Canonical_0)->0, client.server_root);
            }
        },
        StageModel::MkdCheck(place, path) => {
            if file_name(path) is Some {
                law_entry_confined(place, path, client.server_root);
            }
        },
        _ => {},
    }
}

/// The session after a request and the given outcomes, and all actions that it asked for.
pub open spec fn run(client: ClientModel, command: CommandModel, events: Seq<EventModel>) -> (
    ClientModel,
    Seq<ActionModel>,
)
    decreases events.len(),
{
    if events.len() == 0 {
        let (next, action) = start(client, command);
        (next, seq![action])
    } else {
        let (before, actions) = run(client, command, events.drop_last());
        let (next, action) = advance(before, events.last());
        (next, actions.push(action))
    }
}

/// Whether the outcomes can come one after the other upon a request.
pub open spec fn can_run(
    client: ClientModel,
    command: CommandModel,
    events: Seq<EventModel>,
) -> bool
    decreases events.len(),
{
    if events.len() == 0 {
        ready(client, command)
    } else {
        can_run(client, command, events.drop_last()) && accepts(
            run(client, command, events.drop_last()).0,
            events.last(),
        )
    }
}

/// At most how many outcomes a session in the stage takes before the request is done.
pub open spec fn steps_left(stage: StageModel) -> nat {
    match stage {
        StageModel::Idle => 0,
        StageModel::Reply => 1,
        StageModel::Refuse => 2,
        StageModel::CwdResolve(_) => 2,
        StageModel::ListResolve => 6,
        StageModel::ListStart(_) => 5,
        StageModel::ListCheck(_) => 4,
        StageModel::ListRead => 3,
        StageModel::ListInspect => 3,
        StageModel::MkdResolve(_) => 4,
        StageModel::MkdCheck(_, _) => 3,
        StageModel::MkdCreate => 2,
        StageModel::PasvBind => 3,
        StageModel::PasvAnnounce => 2,
        StageModel::PasvAccept => 1,
        StageModel::QuitReply => 2,
        StageModel::QuitClose => 1,
        StageModel::RetrResolve(_) => 6,
        StageModel::RetrCheck(_) => 5,
        StageModel::RetrStart(_) => 4,
        StageModel::RetrRead => 3,
        StageModel::RmdResolve => 3,
        StageModel::RmdRemove => 2,
        StageModel::StorStart(_) => 4,
        StageModel::StorReceive(_) => 3,
        StageModel::StorWrite => 2,
        StageModel::Transfer => 2,
    }
}

/// Each outcome brings a request nearer to its end, and it is done just when the session
/// waits for the next request.
pub proof fn law_progress(client: ClientModel, event: EventModel)
    requires
        accepts(client, event),
    ensures
        steps_left(advance(client, event).0.stage) < steps_left(client.stage),
        advance(client, event).1 is Done <==> advance(client, event).0.stage is Idle,
{
}

/// Every request is done after six outcomes at most: then the session waits for the next
/// request, and before that it asks for something.
pub proof fn law_request_ends(client: ClientModel, command: CommandModel, events: Seq<EventModel>)
    requires
        can_run(client, command, events),
    ensures
        events.len() + steps_left(run(client, command, events).0.stage) <= 6,
        run(client, command, events).1.len() == events.len() + 1,
        run(client, command, events).1.last() is Done <==> run(
            client,
            command,
            events,
        ).0.stage is Idle,
    decreases events.len(),
{
    if events.len() > 0 {
        law_request_ends(client, command, events.drop_last());
        law_progress(run(client, command, events.drop_last()).0, events.last());
    }
}

/// A session in the middle of a request can take some outcome of the action that it asked
/// for.
pub proof fn law_never_stuck(client: ClientModel) -> (event: EventModel)
    requires
        !(client.stage is Idle),
    ensures
        accepts(client, event),
{
    match client.stage {
        StageModel::ListCheck(_) => EventModel::Checked(true),
        StageModel::ListRead => EventModel::Entries(None),
        StageModel::ListInspect => EventModel::Inspected(None),
        StageModel::MkdCheck(_, _) => EventModel::Checked(true),
        StageModel::MkdCreate => EventModel::Created(true),
        StageModel::PasvBind => EventModel::Bound(0),
        StageModel::PasvAccept => EventModel::Connected(true),
        StageModel::QuitClose => EventModel::Closed,
        StageModel::CwdResolve(_)
        | StageModel::ListResolve
        | StageModel::MkdResolve(_)
        | StageModel::RetrResolve(_)
        | StageModel::RmdResolve => {
            let event = EventModel::Canonical(Ok(client.server_root));
            assert(starts_with(client.server_root, client.server_root));
            event
        },
        StageModel::RetrCheck(_) => EventModel::Checked(true),
        StageModel::RetrRead => EventModel::Contents(seq![]),
        StageModel::RmdRemove => EventModel::Removed(true),
        StageModel::StorReceive(_) => EventModel::Received(seq![]),
        StageModel::StorWrite => EventModel::Written,
        StageModel::Transfer => EventModel::DataSent,
        _ => EventModel::Sent,
    }
}

/// Whether the client has been sent no reply yet when a session is in the stage.
pub open spec fn is_unanswered(stage: StageModel) -> bool {
    ||| stage is CwdResolve
    ||| stage is ListResolve
    ||| stage is MkdResolve
    ||| stage is MkdCheck
    ||| stage is MkdCreate
    ||| stage is PasvBind
    ||| stage is RetrResolve
    ||| stage is RetrCheck
    ||| stage is RmdResolve
    ||| stage is RmdRemove
}

/// Whether there is a reply among the actions.
pub open spec fn has_reply(actions: Seq<ActionModel>) -> bool {
    exists|k: int| 0 <= k < actions.len() && (#[trigger] actions[k]) is Send
}

/// No request is done before the client has been sent a reply.
pub proof fn law_every_request_is_answered(
    client: ClientModel,
    command: CommandModel,
    events: Seq<EventModel>,
)
    requires
        can_run(client, command, events),
    ensures
        is_unanswered(run(client, command, events).0.stage) || has_reply(
            run(client, command, events).1,
        ),
        run(client, command, events).0.stage is Idle ==> has_reply(
            run(client, command, events).1,
        ),
    decreases events.len(),
{
    let actions = run(client, command, events).1;
    if events.len() == 0 {
        assert(actions[0] == start(client, command).1);
    } else {
        law_every_request_is_answered(client, command, events.drop_last());
        let (before, earlier) = run(client, command, events.drop_last());
        assert(actions == earlier.push(advance(before, events.last()).1));
        assert(actions[earlier.len() as int] == advance(before, events.last()).1);
        if has_reply(earlier) {
            let k = choose|k: int| 0 <= k < earlier.len() && (#[trigger] earlier[k]) is Send;
            assert(actions[k] is Send);
        }
    }
}

/// A whole request keeps a session well formed, and looks or acts at no place outside the
/// directory that the server serves.
pub proof fn law_request_confined(
    client: ClientModel,
    command: CommandModel,
    events: Seq<EventModel>,
)
    requires
        well_formed(client),
        can_run(client, command, events),
    ensures
        well_formed(run(client, command, events).0),
        run(client, command, events).0.server_root == client.server_root,
        forall|k: int|
            0 <= k < run(client, command, events).1.len() ==> confined(
                client.server_root,
                #[trigger] run(client, command, events).1[k],
            ),
    decreases events.len(),
{
    if events.len() == 0 {
        law_start_confined(client, command);
    } else {
        law_request_confined(client, command, events.drop_last());
        law_advance_confined(run(client, command, events.drop_last()).0, events.last());
        let (before, earlier) = run(client, command, events.drop_last());
        assert(run(client, command, events).1 == earlier.push(
            advance(before, events.last()).1,
        ));
        assert forall|k: int| 0 <= k < run(client, command, events).1.len() implies confined(
            client.server_root,
            #[trigger] run(client, command, events).1[k],
        ) by {
            if k < earlier.len() {
                assert(run(client, command, events).1[k] == earlier[k]);
            }
        }
    }
}

/// Without a data connection a transfer is refused with one reply, and nothing else changes.
pub proof fn law_transfer_refused(client: ClientModel, command: CommandModel)
    requires
        well_formed(client),
        ready(client, command),
        command is List || command is Retr || command is Stor,
        !client.data_writer,
    ensures
        can_run(client, command, seq![EventModel::Sent]),
        run(client, command, seq![EventModel::Sent]).0 == client,
        run(client, command, seq![EventModel::Sent]).1 == seq![
            ActionModel::Send(
                AnswerModel {
                    code: ResultCode::ConnectionClosed,
                    message: "No opened data connection"@,
                },
            ),
            ActionModel::Done,
        ],
{
    let events = seq![EventModel::Sent];
    assert(events.drop_last() =~= seq![]);
    reveal_with_fuel(run, 2);
    reveal_with_fuel(can_run, 2);
    assert(run(client, command, events).0 =~= client);
    assert(run(client, command, events).1 =~= seq![start(client, command).1, ActionModel::Done]);
}

/// Whether one of the outcomes is that a directory could not be read.
pub open spec fn has_unread_directory(events: Seq<EventModel>) -> bool {
    exists|k: int| 0 <= k < events.len() && (#[trigger] events[k]) == EventModel::Entries(None)
}

/// When a transfer is done its data connection is closed, unless a directory could not be
/// read; and what closes it is a reply that says so.
pub proof fn law_transfer_closes(
    client: ClientModel,
    command: CommandModel,
    events: Seq<EventModel>,
)
    requires
        well_formed(client),
        can_run(client, command, events),
        command is List || command is Retr || command is Stor,
        client.data_writer,
    ensures
        has_unread_directory(events) || {
            let (after, actions) = run(client, command, events);
            if after.stage is Idle {
                &&& !after.data_writer && !after.data_reader
                &&& actions.len() >= 2
                &&& actions[actions.len() - 2] == ActionModel::Send(
                    AnswerModel {
                        code: ResultCode::ClosingDataConnection,
                        message: "Transfer done"@,
                    },
                )
            } else if after.stage is Reply {
                &&& !after.data_writer && !after.data_reader
                &&& actions.last() == ActionModel::Send(
                    AnswerModel {
                        code: ResultCode::ClosingDataConnection,
                        message: "Transfer done"@,
                    },
                )
            } else {
                is_transferring(after.stage) && after.data_writer
            }
        },
    decreases events.len(),
{
    if events.len() > 0 {
        law_transfer_closes(client, command, events.drop_last());
        let (before, earlier) = run(client, command, events.drop_last());
        if has_unread_directory(events.drop_last()) {
            let k = choose|k: int|
                0 <= k < events.drop_last().len() && (#[trigger] events.drop_last()[k])
                    == EventModel::Entries(None);
            assert(events[k] == EventModel::Entries(None));
        } else if events.last() == EventModel::Entries(None) {
            assert(events[events.len() - 1] == EventModel::Entries(None));
        } else {
            law_request_confined(client, command, events.drop_last());
            let (after, actions) = run(client, command, events);
            assert(actions == earlier.push(advance(before, events.last()).1));
        }
    }
}

/// What the outcome of an action leaves as it was: all but the stage, the data connection and,
/// when it is to be changed, the working directory.
pub proof fn law_advance_keeps(client: ClientModel, event: EventModel)
    ensures
        advance(client, event).0.server_root == client.server_root,
        advance(client, event).0.data_port == client.data_port,
        advance(client, event).0.transfer_type == client.transfer_type,
        advance(client, event).0.name == client.name,
        advance(client, event).0.cwd != client.cwd ==> client.stage is CwdResolve,
        !(advance(client, event).0.stage is CwdResolve),
{
}

/// Whether a session after a request and some outcomes is as it was before, but for the
/// stage, the data connection and what the request is there to change.
pub open spec fn keeps(client: ClientModel, command: CommandModel, after: ClientModel) -> bool {
    &&& after.server_root == client.server_root
    &&& after.cwd != client.cwd ==> command is Cwd || command is CdUp
    &&& after.data_port == (if command is Port {
        Some(command->Port_0)
    } else {
        client.data_port
    })
    &&& after.transfer_type == (if command is Type {
        command->Type_0
    } else {
        client.transfer_type
    })
    &&& after.name == (if command is User && command->User_0.len() > 0 {
        Some(command->User_0)
    } else {
        client.name
    })
    &&& after.stage is CwdResolve ==> command is Cwd
}

/// What a request leaves as it was at first.
pub proof fn law_start_keeps(client: ClientModel, command: CommandModel)
    ensures
        keeps(client, command, start(client, command).0),
{
}

/// What a request leaves as it was: the directory that the server serves always; the working
/// directory unless it is to be changed; and the port, the transfer type and the name unless
/// the request gives another.
pub proof fn law_request_keeps(
    client: ClientModel,
    command: CommandModel,
    events: Seq<EventModel>,
)
    requires
        can_run(client, command, events),
    ensures
        keeps(client, command, run(client, command, events).0),
    decreases events.len(),
{
    if events.len() == 0 {
        law_start_keeps(client, command);
    } else {
        let before = run(client, command, events.drop_last()).0;
        let after = run(client, command, events).0;
        law_request_keeps(client, command, events.drop_last());
        law_advance_keeps(before, events.last());
        assert(after == advance(before, events.last()).0);
        assert(keeps(client, command, after));
    }
}

/// Whether each place that was found for a path is one without `..`, as a place free of
/// symbolic links is.
pub open spec fn are_resolved(events: Seq<EventModel>) -> bool {
    forall|k: int|
        0 <= k < events.len() ==> ((#[trigger] events[k]) matches EventModel::Canonical(Ok(place))
            ==> !climbs(place))
}

/// A request puts no `..` into the working directory at first.
pub proof fn law_start_stays_below(client: ClientModel, command: CommandModel)
    requires
        !climbs(client.cwd),
    ensures
        !climbs(start(client, command).0.cwd),
{
    let after = start(client, command).0.cwd;
    if after != client.cwd {
        lemma_components_parent(client.cwd);
        assert(components(after) == components(client.cwd).drop_last());
        if climbs(after) {
            let k = components(after).index_of(seq![DOT, DOT]);
            assert(components(client.cwd)[k] == seq![DOT, DOT]);
        }
    }
}

/// The outcome of an action puts no `..` into the working directory, where there is none in
/// the place that was found.
pub proof fn law_advance_stays_below(client: ClientModel, event: EventModel)
    requires
        well_formed(client),
        accepts(client, event),
        !climbs(client.cwd),
        event matches EventModel::Canonical(Ok(place)) ==> !climbs(place),
    ensures
        !climbs(advance(client, event).0.cwd),
{
    let after = advance(client, event).0.cwd;
    if after != client.cwd {
        let place = permitted(client, event->Canonical_0)->0;
        let count = components(client.server_root).len() as int;
        lemma_strip_prefix(place, client.server_root);
        assert(components(after) == components(place).skip(count));
        if climbs(after) {
            let k = components(after).index_of(seq![DOT, DOT]);
            assert(components(place)[k + count] == seq![DOT, DOT]);
        }
    }
}

/// A request leaves the working directory without `..`, where there is none in the places that
/// were found.
pub proof fn law_request_stays_below(
    client: ClientModel,
    command: CommandModel,
    events: Seq<EventModel>,
)
    requires
        well_formed(client),
        can_run(client, command, events),
        !climbs(client.cwd),
        are_resolved(events),
    ensures
        !climbs(run(client, command, events).0.cwd),
    decreases events.len(),
{
    if events.len() == 0 {
        law_start_stays_below(client, command);
    } else {
        let earlier = events.drop_last();
        assert forall|k: int| 0 <= k < earlier.len() implies ((
        #[trigger] earlier[k]) matches EventModel::Canonical(Ok(place)) ==> !climbs(place)) by {
            assert(earlier[k] == events[k]);
        }
        assert(events[events.len() - 1] == events.last());
        law_request_stays_below(client, command, earlier);
        law_request_confined(client, command, earlier);
        law_advance_stays_below(run(client, command, earlier).0, events.last());
    }
}

/// A request and the outcomes that came upon it.
pub struct RequestModel {
    pub command: CommandModel,
    pub events: Seq<EventModel>,
}

/// The session after some requests, one after the other, from its beginning.
pub open spec fn history(server_root: Seq<u8>, requests: Seq<RequestModel>) -> ClientModel
    decreases requests.len(),
{
    if requests.len() == 0 {
        initial(server_root)
    } else {
        run(
            history(server_root, requests.drop_last()),
            requests.last().command,
            requests.last().events,
        ).0
    }
}

/// Whether the requests and their outcomes can come one after the other.
pub open spec fn can_happen(server_root: Seq<u8>, requests: Seq<RequestModel>) -> bool
    decreases requests.len(),
{
    requests.len() == 0 || {
        &&& can_happen(server_root, requests.drop_last())
        &&& can_run(
            history(server_root, requests.drop_last()),
            requests.last().command,
            requests.last().events,
        )
    }
}

/// After any requests a session is well formed, and serves the directory that it was made for.
/// Its working directory is relative, and without `..` where there is none in the places that
/// were found.
pub proof fn law_whole_session(server_root: Seq<u8>, requests: Seq<RequestModel>)
    requires
        server_root.len() > 0,
        can_happen(server_root, requests),
    ensures
        well_formed(history(server_root, requests)),
        history(server_root, requests).server_root == server_root,
        !has_root(history(server_root, requests).cwd),
        (forall|k: int| 0 <= k < requests.len() ==> are_resolved((#[trigger] requests[k]).events))
            ==> !climbs(history(server_root, requests).cwd),
    decreases requests.len(),
{
    let after = history(server_root, requests);
    if requests.len() == 0 {
        law_initial_well_formed(server_root);
        assert(spans(after.cwd) =~= seq![]);
    } else {
        let earlier = requests.drop_last();
        let before = history(server_root, earlier);
        let last = requests.last();
        law_whole_session(server_root, earlier);
        law_request_confined(before, last.command, last.events);
        if forall|k: int|
            0 <= k < requests.len() ==> are_resolved((#[trigger] requests[k]).events) {
            assert forall|k: int| 0 <= k < earlier.len() implies are_resolved(
                (#[trigger] earlier[k]).events,
            ) by {
                assert(earlier[k] == requests[k]);
            }
            assert(requests[requests.len() - 1] == last);
            law_request_stays_below(before, last.command, last.events);
        }
    }
}

/// Only a request to change the working directory or to go up changes it.
pub proof fn law_working_directory_stays(server_root: Seq<u8>, requests: Seq<RequestModel>)
    requires
        can_happen(server_root, requests),
        requests.len() > 0,
        !(requests.last().command is Cwd),
        !(requests.last().command is CdUp),
    ensures
        history(server_root, requests).cwd == history(server_root, requests.drop_last()).cwd,
{
    let before = history(server_root, requests.drop_last());
    law_request_keeps(before, requests.last().command, requests.last().events);
}

/// A session whose working directory is text can always tell the client that a file of a
/// name in text is not there.
pub proof fn law_missing_file_can_be_named(
    client: ClientModel,
    path: Seq<u8>,
    found: Result<Seq<u8>, std::io::Error>,
)
    requires
        valid_utf8(client.cwd),
        valid_utf8(path),
    ensures
        accepts(
            at(client, StageModel::RetrResolve(join(client.cwd, path))),
            EventModel::Canonical(found),
        ),
{
    let slash = seq![SLASH];
    assert(valid_utf8(slash)) by {
        assert(pop_first_scalar(slash) =~= seq![]);
        reveal_with_fuel(valid_utf8, 2);
    }
    valid_utf8_concat(client.cwd, path);
    valid_utf8_concat(client.cwd, slash);
    valid_utf8_concat(client.cwd + slash, path);
    assert(client.cwd.push(SLASH) =~= client.cwd + slash);
}

}
