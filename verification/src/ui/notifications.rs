//! Notifications of what agents do.
use vstd::prelude::*;
use vstd::string::*;

use super::tree::{AgentDump, ModelSnapshot, TerminalStatus};
use crate::decimal::{decimal_text, push_decimal_text};
use crate::ids::TerminalId;

verus! {

/// A notification of the platform.
#[derive(Debug)]
pub struct AgentNotification {
    pub tag: String,
    pub title: String,
    pub body: String,
}

/// A notification by its texts.
#[verifier::ext_equal]
pub struct NotificationView {
    pub tag: Seq<char>,
    pub title: Seq<char>,
    pub body: Seq<char>,
}

impl View for AgentNotification {
    type V = NotificationView;

    open spec fn view(&self) -> NotificationView {
        NotificationView { tag: self.tag@, title: self.title@, body: self.body@ }
    }
}

/// Where the agent of a terminal stands in a list.
pub open spec fn agent_at(agents: Seq<AgentDump>, id: TerminalId) -> Option<int>
    decreases agents.len(),
{
    if agents.len() == 0 {
        None
    } else if agents[0].terminal_id == id {
        Some(0)
    } else {
        match agent_at(agents.drop_first(), id) {
            Some(at) => Some(at + 1),
            None => None,
        }
    }
}

/// The agent that a terminal has now.
pub open spec fn agent_now(current: Seq<AgentDump>, before: AgentDump) -> Option<AgentDump> {
    match agent_at(current, before.terminal_id) {
        Some(at) => Some(current[at]),
        None => None,
    }
}

/// An agent has stopped working and waits.
pub open spec fn became_idle(before: AgentDump, after: Option<AgentDump>) -> bool {
    match after {
        Some(agent) => agent.kind == before.kind && before.active && !agent.active
            && agent.status is Running,
        None => false,
    }
}

/// An agent that was running has ended, or has left.
pub open spec fn has_exited(before: AgentDump, after: Option<AgentDump>) -> bool {
    before.status is Running && match after {
        Some(agent) => agent.status is Exited,
        None => true,
    }
}

/// The number of the notification after another one; numbers start at 1.
pub open spec fn next_number(number: u64) -> u64 {
    if number == u64::MAX {
        1
    } else {
        (number + 1) as u64
    }
}

/// What a notification says of an agent.
pub open spec fn notice(before: AgentDump, exited: bool, number: u64) -> NotificationView {
    NotificationView {
        tag: "water-agent-"@ + decimal_text(before.terminal_id.value as nat) + seq!['-']
            + decimal_text(number as nat),
        title: "Agent finished"@,
        body: before.display_label@ + (if exited {
            " exited"@
        } else {
            " is waiting for input"@
        }) + (if before.cwd@.len() == 0 {
            Seq::empty()
        } else {
            " · "@ + before.cwd@
        }),
    }
}

/// The notifications for some agents, and the number of the last one.
pub open spec fn notices(
    previous: Seq<AgentDump>,
    current: Seq<AgentDump>,
    number: u64,
) -> (Seq<NotificationView>, u64)
    decreases previous.len(),
{
    if previous.len() == 0 {
        (Seq::empty(), number)
    } else {
        let (earlier, last) = notices(previous.drop_last(), current, number);
        let before = previous.last();
        let after = agent_now(current, before);
        if became_idle(before, after) || has_exited(before, after) {
            (
                earlier.push(notice(before, has_exited(before, after), next_number(last))),
                next_number(last),
            )
        } else {
            (earlier, last)
        }
    }
}

/// The notifications as texts.
pub open spec fn notification_views(notifications: Seq<AgentNotification>) -> Seq<
    NotificationView,
> {
    notifications.map_values(|notification: AgentNotification| notification@)
}

fn find_agent(agents: &Vec<AgentDump>, id: TerminalId) -> (at: Option<usize>)
    ensures
        match at {
            Some(at) => agent_at(agents@, id) == Some(at as int) && at < agents@.len(),
            None => agent_at(agents@, id) is None,
        },
{
    let mut at: usize = 0;
    assert(agents@.skip(0) =~= agents@);
    while at < agents.len()
        invariant
            at <= agents@.len(),
            agent_at(agents@, id) == match agent_at(agents@.skip(at as int), id) {
                Some(found) => Some(found + at),
                None => None,
            },
        decreases agents@.len() - at,
    {
        assert(agents@.skip(at as int)[0] == agents@[at as int]);
        if agents[at].terminal_id == id {
            return Some(at);
        }
        assert(agents@.skip(at as int).drop_first() =~= agents@.skip(at + 1));
        at = at + 1;
    }
    None
}

fn write_notice(before: &AgentDump, exited: bool, number: u64) -> (notification: AgentNotification)
    ensures
        notification@ == notice(*before, exited, number),
{
    let mut tag: String = "water-agent-".to_owned();
    push_decimal_text(&mut tag, before.terminal_id.value);
    tag.push('-');
    push_decimal_text(&mut tag, number);
    let mut body: String = before.display_label.as_str().to_owned();
    if exited {
        body.append(" exited");
    } else {
        body.append(" is waiting for input");
    }
    let ghost said = body@;
    if !before.cwd.as_str().is_empty() {
        body.append(" · ");
        body.append(before.cwd.as_str());
        assert(body@ =~= said + (" · "@ + before.cwd@));
    } else {
        assert(body@ =~= said + Seq::<char>::empty());
    }
    let notification = AgentNotification { tag, title: "Agent finished".to_owned(), body };
    assert(notification@.tag =~= notice(*before, exited, number).tag);
    notification
}

/// Turns the edges of the model's agent activity into notifications. Returns
/// them with the number of the last notification.
pub fn notify_agent_transitions(
    previous: &ModelSnapshot,
    current: &ModelSnapshot,
    last_number: u64,
) -> (posted: (Vec<AgentNotification>, u64))
    ensures
        (notification_views(posted.0@), posted.1) == notices(
            previous.agents@,
            current.agents@,
            last_number,
        ),
{
    let mut posted: Vec<AgentNotification> = Vec::new();
    let mut number: u64 = last_number;
    let mut at: usize = 0;
    let ghost agents = previous.agents@;
    assert(agents.take(0) =~= Seq::empty());
    assert(notification_views(posted@) =~= Seq::empty());
    while at < previous.agents.len()
        invariant
            agents == previous.agents@,
            at <= agents.len(),
            (notification_views(posted@), number) == notices(
                agents.take(at as int),
                current.agents@,
                last_number,
            ),
        decreases agents.len() - at,
    {
        assert(agents.take(at + 1).drop_last() =~= agents.take(at as int));
        let before: &AgentDump = &previous.agents[at];
        let found: Option<usize> = find_agent(&current.agents, before.terminal_id);
        let idle: bool = match found {
            Some(after) => {
                let agent: &AgentDump = &current.agents[after];
                agent.kind == before.kind && before.active && !agent.active && matches!(
                    agent.status,
                    TerminalStatus::Running
                )
            },
            None => false,
        };
        let exited: bool = matches!(before.status, TerminalStatus::Running) && match found {
            Some(after) => matches!(current.agents[after].status, TerminalStatus::Exited { .. }),
            None => true,
        };
        if idle || exited {
            number = if number == u64::MAX {
                1
            } else {
                number + 1
            };
            let ghost earlier = posted@;
            posted.push(write_notice(before, exited, number));
            assert(notification_views(posted@) =~= notification_views(earlier).push(
                notice(*before, exited, number),
            ));
        }
        at = at + 1;
    }
    assert(agents.take(at as int) =~= agents);
    (posted, number)
}

/// An agent that keeps its terminal, its kind, its activity and its status is
/// not notified of.
pub proof fn an_unchanged_agent_is_quiet(before: AgentDump, after: AgentDump)
    requires
        after.active == before.active,
        after.status == before.status,
    ensures
        !became_idle(before, Some(after)),
        !has_exited(before, Some(after)),
{
}

/// An agent is looked up by its terminal: the first one that runs in it.
pub proof fn an_agent_is_found_by_its_terminal(agents: Seq<AgentDump>, id: TerminalId)
    ensures
        match agent_at(agents, id) {
            Some(at) => 0 <= at < agents.len() && agents[at].terminal_id == id && forall|i: int|
                0 <= i < at ==> (#[trigger] agents[i]).terminal_id != id,
            None => forall|i: int|
                0 <= i < agents.len() ==> (#[trigger] agents[i]).terminal_id != id,
        },
    decreases agents.len(),
{
    if agents.len() > 0 {
        let rest = agents.drop_first();
        an_agent_is_found_by_its_terminal(rest, id);
        assert forall|i: int| 0 < i < agents.len() implies #[trigger] agents[i] == rest[i - 1] by {}
    }
}

/// One notification is sent of an agent that stopped working or exited, with its
/// name, what happened and where, and under a new number; none is sent of any
/// other.
pub proof fn an_agent_that_stops_is_announced(
    front: Seq<AgentDump>,
    before: AgentDump,
    current: Seq<AgentDump>,
    number: u64,
)
    requires
        notices(front, current, number).1 < u64::MAX,
    ensures
        ({
            let (earlier, last) = notices(front, current, number);
            let (all, after) = notices(front.push(before), current, number);
            let now = agent_now(current, before);
            let running = before.status is Running;
            let gone = running && (now is None || now->0.status is Exited);
            let idle = now is Some && now->0.kind == before.kind && before.active
                && !now->0.active && now->0.status is Running;
            let place = if before.cwd@.len() == 0 {
                Seq::empty()
            } else {
                " · "@ + before.cwd@
            };
            &&& !gone && !idle ==> all == earlier && after == last
            &&& gone || idle ==> all.len() == earlier.len() + 1 && all.drop_last() == earlier
                && after == last + 1 && all.last().title == "Agent finished"@
            &&& gone ==> all.last().body == before.display_label@ + " exited"@ + place
            &&& !gone && idle ==> all.last().body == before.display_label@
                + " is waiting for input"@ + place
        }),
{
    assert(front.push(before).drop_last() =~= front);
    let (earlier, last) = notices(front, current, number);
    let (all, after) = notices(front.push(before), current, number);
    if all.len() > earlier.len() {
        assert(all.drop_last() =~= earlier);
    }
}

/// Notifications are told apart by the number in their tag, which grows with each
/// of them.
pub proof fn notifications_are_numbered(before: AgentDump, exited: bool, number: u64)
    ensures
        notice(before, exited, number).tag == "water-agent-"@ + decimal_text(
            before.terminal_id.value as nat,
        ) + seq!['-'] + decimal_text(number as nat),
        number < u64::MAX ==> next_number(number) == number + 1,
        next_number(u64::MAX) == 1,
{
}

} // verus!
