//! What clients ask for and are told about plans and supervision.

use crate::binding::turn_position;
use crate::binding::ImplementerBinding;
use crate::lifecycle::state_option;
use crate::model::plan_option;
use crate::plan::ContinuousPlanning;
use crate::runtime::PlanRuntime;
use crate::supervisor_state::StateView;
use crate::supervisor_state::SupervisorState;
use vstd::prelude::*;

verus! {

#[derive(Debug, PartialEq, Eq)]
pub struct ThreadPlanReadParams {
    pub thread_id: String,
}

#[derive(Debug, PartialEq, Eq)]
pub struct ThreadPlanReadResponse {
    pub plan: Option<ContinuousPlanning>,
}

#[derive(Debug, PartialEq, Eq)]
pub struct ThreadPlanHistoryListParams {
    pub thread_id: String,
    pub cursor: Option<String>,
    pub limit: Option<u32>,
}

#[derive(Debug, PartialEq, Eq)]
pub struct ThreadPlanHistoryListResponse {
    pub data: Vec<ContinuousPlanning>,
    pub next_cursor: Option<String>,
}

#[derive(Debug, PartialEq, Eq)]
pub struct ThreadPlanUpdatedNotification {
    pub thread_id: String,
    /// Server clock when this view was sent, including snapshots on resume.
    pub observed_at: i64,
    pub plan: ContinuousPlanning,
}

#[derive(Debug, PartialEq, Eq)]
pub struct ThreadSupervisorReadParams {
    pub thread_id: String,
}

#[derive(Debug, PartialEq, Eq)]
pub struct ThreadSupervisorReadResponse {
    pub state: Option<SupervisorState>,
    pub plan: Option<ContinuousPlanning>,
}

#[derive(Debug, PartialEq, Eq)]
pub struct ThreadSupervisorUpdatedNotification {
    pub thread_id: String,
    pub observed_at: i64,
    pub state: SupervisorState,
    pub plan: Option<ContinuousPlanning>,
}

#[derive(Debug, PartialEq, Eq)]
pub struct ThreadSupervisorHistoryListParams {
    pub thread_id: String,
    pub cursor: Option<String>,
    pub limit: Option<u32>,
}

#[derive(Debug, PartialEq, Eq)]
pub struct ThreadSupervisorHistoryListResponse {
    pub data: Vec<ThreadSupervisorActivityNotification>,
    pub next_cursor: Option<String>,
}

#[derive(Debug, PartialEq, Eq)]
pub struct ThreadSupervisorInterruptParams {
    pub thread_id: String,
}

#[derive(Debug, PartialEq, Eq)]
pub struct ThreadSupervisorInterruptResponse {}

/// What kind of item a notification is about.
#[derive(Clone, Copy, Debug, PartialEq, Eq, Structural)]
pub enum ThreadItemKind {
    CommandExecution,
    FileChange,
    McpToolCall,
    WebSearch,
    ImageGeneration,
    /// Messages, reasoning and whatever else is not tool activity.
    Other,
}

impl ThreadItemKind {
    /// Whether an item is native tool activity.
    pub open spec fn executes(self) -> bool {
        self != ThreadItemKind::Other
    }
}

fn execution_item(item: &ThreadItemKind) -> (yes: bool)
    ensures
        yes == item.executes(),
{
    matches!(
        item,
        ThreadItemKind::CommandExecution | ThreadItemKind::FileChange
            | ThreadItemKind::McpToolCall | ThreadItemKind::WebSearch
            | ThreadItemKind::ImageGeneration
    )
}

/// An item that starts or is complete, with its encoded content.
#[derive(Debug, PartialEq, Eq)]
pub struct ItemNotification {
    pub turn_id: String,
    pub item: ThreadItemKind,
    pub content: String,
}

/// Something that an item of a turn does, with its encoded content.
#[derive(Debug, PartialEq, Eq)]
pub struct ProgressNotification {
    pub turn_id: String,
    pub content: String,
}

/// The answer to a request of the server, with its encoded content.
#[derive(Debug, PartialEq, Eq)]
pub struct ResolvedNotification {
    pub thread_id: String,
    pub content: String,
}

/// A notification on its way to a client.
#[derive(Debug, PartialEq, Eq)]
pub enum ServerNotification {
    ItemStarted(ItemNotification),
    ItemCompleted(ItemNotification),
    CommandExecutionOutputDelta(ProgressNotification),
    FileChangeOutputDelta(ProgressNotification),
    TerminalInteraction(ProgressNotification),
    McpToolCallProgress(ProgressNotification),
    ServerRequestResolved(ResolvedNotification),
    ThreadSupervisorActivity(ThreadSupervisorActivityNotification),
    ThreadSupervisorUpdated(ThreadSupervisorUpdatedNotification),
    /// Any other notification, encoded.
    Other(String),
}

/// Only native tool activity crosses this boundary, never Implementer dialogue.
#[derive(Debug, PartialEq, Eq)]
pub enum SupervisorActivity {
    ItemStarted(ItemNotification),
    ItemCompleted(ItemNotification),
    CommandOutput(ProgressNotification),
    FileOutput(ProgressNotification),
    TerminalInteraction(ProgressNotification),
    McpProgress(ProgressNotification),
}

#[derive(Debug, PartialEq, Eq)]
pub struct ThreadSupervisorActivityNotification {
    pub thread_id: String,
    pub implementer_thread_id: String,
    pub execution_id: String,
    pub step_id: String,
    pub title: String,
    pub sequence: i64,
    pub created_at: i64,
    pub activity: SupervisorActivity,
}

impl ServerNotification {
    /// The activity in a notification. The list of what passes deliberately excludes messages,
    /// reasoning and lifecycle control.
    pub open spec fn activity(self) -> Option<SupervisorActivity> {
        match self {
            ServerNotification::ItemStarted(value) => if value.item.executes() {
                Some(SupervisorActivity::ItemStarted(value))
            } else {
                None
            },
            ServerNotification::ItemCompleted(value) => if value.item.executes() {
                Some(SupervisorActivity::ItemCompleted(value))
            } else {
                None
            },
            ServerNotification::CommandExecutionOutputDelta(value) => Some(
                SupervisorActivity::CommandOutput(value),
            ),
            ServerNotification::FileChangeOutputDelta(value) => Some(
                SupervisorActivity::FileOutput(value),
            ),
            ServerNotification::TerminalInteraction(value) => Some(
                SupervisorActivity::TerminalInteraction(value),
            ),
            ServerNotification::McpToolCallProgress(value) => Some(
                SupervisorActivity::McpProgress(value),
            ),
            _ => None,
        }
    }
}

impl SupervisorActivity {
    pub open spec fn notification(self) -> ServerNotification {
        match self {
            SupervisorActivity::ItemStarted(value) => ServerNotification::ItemStarted(value),
            SupervisorActivity::ItemCompleted(value) => ServerNotification::ItemCompleted(value),
            SupervisorActivity::CommandOutput(value) => {
                ServerNotification::CommandExecutionOutputDelta(value)
            },
            SupervisorActivity::FileOutput(value) => {
                ServerNotification::FileChangeOutputDelta(value)
            },
            SupervisorActivity::TerminalInteraction(value) => {
                ServerNotification::TerminalInteraction(value)
            },
            SupervisorActivity::McpProgress(value) => {
                ServerNotification::McpToolCallProgress(value)
            },
        }
    }

    pub open spec fn turn(self) -> Seq<char> {
        match self {
            SupervisorActivity::ItemStarted(value) => value.turn_id@,
            SupervisorActivity::ItemCompleted(value) => value.turn_id@,
            SupervisorActivity::CommandOutput(value) => value.turn_id@,
            SupervisorActivity::FileOutput(value) => value.turn_id@,
            SupervisorActivity::TerminalInteraction(value) => value.turn_id@,
            SupervisorActivity::McpProgress(value) => value.turn_id@,
        }
    }

    /// Whether an activity is one that a notification can hold.
    pub open spec fn native(self) -> bool {
        match self {
            SupervisorActivity::ItemStarted(value) => value.item.executes(),
            SupervisorActivity::ItemCompleted(value) => value.item.executes(),
            _ => true,
        }
    }

    pub fn from_notification(notification: ServerNotification) -> (activity: Option<Self>)
        ensures
            activity == notification.activity(),
    {
        match notification {
            ServerNotification::ItemStarted(value) => {
                if execution_item(&value.item) {
                    Some(SupervisorActivity::ItemStarted(value))
                } else {
                    None
                }
            },
            ServerNotification::ItemCompleted(value) => {
                if execution_item(&value.item) {
                    Some(SupervisorActivity::ItemCompleted(value))
                } else {
                    None
                }
            },
            ServerNotification::CommandExecutionOutputDelta(value) => {
                Some(SupervisorActivity::CommandOutput(value))
            },
            ServerNotification::FileChangeOutputDelta(value) => {
                Some(SupervisorActivity::FileOutput(value))
            },
            ServerNotification::TerminalInteraction(value) => {
                Some(SupervisorActivity::TerminalInteraction(value))
            },
            ServerNotification::McpToolCallProgress(value) => {
                Some(SupervisorActivity::McpProgress(value))
            },
            _ => None,
        }
    }

    pub fn into_notification(self) -> (notification: ServerNotification)
        ensures
            notification == self.notification(),
    {
        match self {
            SupervisorActivity::ItemStarted(value) => ServerNotification::ItemStarted(value),
            SupervisorActivity::ItemCompleted(value) => ServerNotification::ItemCompleted(value),
            SupervisorActivity::CommandOutput(value) => {
                ServerNotification::CommandExecutionOutputDelta(value)
            },
            SupervisorActivity::FileOutput(value) => {
                ServerNotification::FileChangeOutputDelta(value)
            },
            SupervisorActivity::TerminalInteraction(value) => {
                ServerNotification::TerminalInteraction(value)
            },
            SupervisorActivity::McpProgress(value) => {
                ServerNotification::McpToolCallProgress(value)
            },
        }
    }

    /// The turn that an activity belongs to.
    pub fn turn_id(&self) -> (id: &str)
        ensures
            id@ == self.turn(),
    {
        match self {
            SupervisorActivity::ItemStarted(event) => event.turn_id.as_str(),
            SupervisorActivity::ItemCompleted(event) => event.turn_id.as_str(),
            SupervisorActivity::CommandOutput(event) => event.turn_id.as_str(),
            SupervisorActivity::FileOutput(event) => event.turn_id.as_str(),
            SupervisorActivity::TerminalInteraction(event) => event.turn_id.as_str(),
            SupervisorActivity::McpProgress(event) => event.turn_id.as_str(),
        }
    }
}

/// Activity goes into a notification and comes out of it as it was, both ways.
pub proof fn law_activity_survives_notification(
    activity: SupervisorActivity,
    notification: ServerNotification,
)
    ensures
        activity.native() ==> activity.notification().activity() == Some(activity),
        notification.activity() matches Some(found) ==> found.native() && found.notification()
            == notification,
{
}

/// Nothing but tool activity is ever taken for activity.
pub proof fn law_dialogue_is_no_activity(notification: ServerNotification)
    ensures
        match notification {
            ServerNotification::ItemStarted(value) => notification.activity() is Some
                <==> value.item.executes(),
            ServerNotification::ItemCompleted(value) => notification.activity() is Some
                <==> value.item.executes(),
            ServerNotification::ServerRequestResolved(_) => notification.activity() is None,
            ServerNotification::ThreadSupervisorActivity(_) => notification.activity() is None,
            ServerNotification::ThreadSupervisorUpdated(_) => notification.activity() is None,
            ServerNotification::Other(_) => notification.activity() is None,
            _ => notification.activity() is Some,
        },
{
}

/// What becomes of a notification from an Implementer's conversation.
#[derive(Debug)]
pub enum Outgoing {
    /// It goes out.
    Forward { notification: ServerNotification },
    /// It stays private.
    Withhold,
    /// The activity is recorded, numbered, and then goes out.
    Record { event: ThreadSupervisorActivityNotification },
}

/// Turns a notification from an Implementer's conversation into what its Supervisor's clients
/// see: answered requests go to the Supervisor's conversation, tool activity is recorded with its
/// step, and the rest stays private. `binding` is none in every other conversation; `runtime` is
/// none once the Supervisor has stopped.
pub fn supervisor_notification(
    binding: Option<&ImplementerBinding>,
    runtime: Option<&PlanRuntime>,
    implementer_thread_id: &str,
    notification: ServerNotification,
    created_at: i64,
) -> (outgoing: Outgoing)
    ensures
        match binding {
            None => outgoing == (Outgoing::Forward { notification }),
            Some(binding) => match runtime {
                None => outgoing == Outgoing::Withhold,
                Some(runtime) => match notification {
                    ServerNotification::ServerRequestResolved(resolved) => outgoing matches
                        Outgoing::Forward {
                            notification: ServerNotification::ServerRequestResolved(moved),
                        } && moved.thread_id@ == runtime@.thread_id && moved.content
                        == resolved.content,
                    _ => match notification.activity() {
                        None => outgoing == Outgoing::Withhold,
                        Some(activity) => if runtime@.implementer
                            == Some(binding.execution_id@) && turn_position(
                            binding.turns(),
                            activity.turn(),
                        ) is Some {
                            let step = binding.turns()[turn_position(
                                binding.turns(),
                                activity.turn(),
                            )->0];
                            outgoing matches Outgoing::Record { event } && {
                                &&& event.thread_id@ == runtime@.thread_id
                                &&& event.implementer_thread_id@ == implementer_thread_id@
                                &&& event.execution_id@ == binding.execution_id@
                                &&& event.step_id@ == step.step_id
                                &&& event.title@ == step.title
                                &&& event.sequence == 0
                                &&& event.created_at == created_at
                                &&& event.activity == activity
                            }
                        } else {
                            outgoing == Outgoing::Withhold
                        },
                    },
                },
            },
        },
{
    let binding = match binding {
        None => {
            return Outgoing::Forward { notification };
        },
        Some(binding) => binding,
    };
    let runtime = match runtime {
        None => {
            return Outgoing::Withhold;
        },
        Some(runtime) => runtime,
    };
    let notification = match notification {
        ServerNotification::ServerRequestResolved(resolved) => {
            let moved = ResolvedNotification {
                thread_id: runtime.thread_id.clone(),
                content: resolved.content,
            };
            return Outgoing::Forward {
                notification: ServerNotification::ServerRequestResolved(moved),
            };
        },
        other => other,
    };
    let activity = match SupervisorActivity::from_notification(notification) {
        None => {
            return Outgoing::Withhold;
        },
        Some(activity) => activity,
    };
    match binding.presentation(runtime, activity.turn_id()) {
        None => Outgoing::Withhold,
        Some(presentation) => Outgoing::Record {
            event: ThreadSupervisorActivityNotification {
                thread_id: presentation.thread_id,
                implementer_thread_id: implementer_thread_id.to_owned(),
                execution_id: presentation.execution_id,
                step_id: presentation.step_id,
                title: presentation.title,
                sequence: 0,
                created_at,
                activity,
            },
        },
    }
}

/// Numbers a recorded activity; it then goes out.
pub fn numbered_activity(event: ThreadSupervisorActivityNotification, sequence: i64) -> (notification:
    ServerNotification)
    ensures
        notification == ServerNotification::ThreadSupervisorActivity(
            (ThreadSupervisorActivityNotification { sequence, ..event }),
        ),
{
    let mut event = event;
    event.sequence = sequence;
    ServerNotification::ThreadSupervisorActivity(event)
}

/// The notification of a change, with the state that is stored or a fresh one.
pub fn supervisor_update(
    thread_id: String,
    observed_at: i64,
    state: Option<SupervisorState>,
    plan: Option<ContinuousPlanning>,
) -> (notification: ThreadSupervisorUpdatedNotification)
    ensures
        notification.thread_id@ == thread_id@,
        notification.observed_at == observed_at,
        notification.state@ == (match state_option(state) {
            Some(state) => state,
            None => StateView::fresh(),
        }),
        plan_option(notification.plan) == plan_option(plan),
{
    ThreadSupervisorUpdatedNotification {
        thread_id,
        observed_at,
        state: match state {
            Some(state) => state,
            None => SupervisorState::default(),
        },
        plan,
    }
}

} // verus!
