use vstd::prelude::*;

verus! {

/// One step of a rule's action list, with its parameters resolved.
pub enum Action {
    /// Pass the frames on unchanged.
    Forward,
    /// Hold the frames back for that many seconds, then go on.
    Delay(u64),
    /// Drop the frames and stop.
    Block,
    /// Collect frames under a key until enough distinct source systems are
    /// seen or the timeout passes.
    Batch {
        count: usize,
        timeout_seconds: u64,
        key: String,
        forward_on_timeout: bool,
        system_id_field: Option<String>,
    },
    /// Replace each frame's message with the modifier's result; absent when
    /// the modifier produced none.
    Modify { modifier: String, modified_message: Option<mavlink::ardupilotmega::MavMessage> },
}

/// Model of an action step.
#[verifier::ext_equal]
pub enum ActionView {
    Forward,
    Delay(u64),
    Block,
    Batch {
        count: int,
        timeout_seconds: u64,
        key: Seq<char>,
        forward_on_timeout: bool,
        system_id_field: Option<Seq<char>>,
    },
    Modify { modifier: Seq<char>, modified_message: Option<mavlink::ardupilotmega::MavMessage> },
}

impl View for Action {
    type V = ActionView;

    open spec fn view(&self) -> ActionView {
        match self {
            Action::Forward => ActionView::Forward,
            Action::Delay(s) => ActionView::Delay(*s),
            Action::Block => ActionView::Block,
            Action::Batch { count, timeout_seconds, key, forward_on_timeout, system_id_field } => {
                ActionView::Batch {
                    count: *count as int,
                    timeout_seconds: *timeout_seconds,
                    key: key@,
                    forward_on_timeout: *forward_on_timeout,
                    system_id_field: match system_id_field {
                        Some(f) => Some(f@),
                        None => None,
                    },
                }
            },
            Action::Modify { modifier, modified_message } => {
                ActionView::Modify {
                    modifier: modifier@,
                    modified_message: *modified_message,
                }
            },
        }
    }
}

/// Models of a list of action steps.
pub open spec fn action_views(s: Seq<Action>) -> Seq<ActionView> {
    s.map_values(|a: Action| a@)
}

/// Content views of a list of frames.
pub open spec fn frame_views(s: Seq<Vec<u8>>) -> Seq<Seq<u8>> {
    s.map_values(|p: Vec<u8>| p@)
}

} // verus!
