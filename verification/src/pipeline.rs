//! The ready/frame handshake between the driving loop and the render
//! worker, and the driving loop's reading of input events.
//!
//! Nothing here blocks, sleeps or sends: each function takes what happened
//! and says what to do next.

use vstd::prelude::*;
use crate::scene::Object;
use crate::scene::damaged;
use crate::scene::is_hit;
use crate::scene::playable;

verus! {

/// How far one movement command moves the player along an axis: 5 units.
pub const STRIDE: i64 = 5000;

/// Where the render worker stands in its cycle.
#[derive(Clone, Copy, Debug, PartialEq, Eq, Structural)]
pub enum RenderState {
    AwaitingReady,
    Rendering,
    FrameSent,
    Terminated,
}

/// What the render worker has just seen or done.
#[derive(Clone, Copy, Debug, PartialEq, Eq, Structural)]
pub enum RenderEvent {
    /// A ready token arrived.
    Ready,
    /// The frame is drawn and encoded.
    Rendered,
    /// The frame has been handed to the channel.
    Sent,
    /// The pipeline is shutting down.
    Terminate,
}

/// What the render worker does next.
#[derive(Clone, Copy, Debug, PartialEq, Eq, Structural)]
pub enum RenderAction {
    /// Nothing: wait for the next event.
    Wait,
    /// Advance the scene and draw a frame.
    Render,
    /// Send the frame.
    SendFrame,
    /// Leave the loop.
    Stop,
}

/// The worker's next state and action. A ready token starts a cycle only
/// while the worker awaits one; termination is reached from every state and
/// never left; an event that does not fit the state changes nothing.
pub open spec fn render_next(state: RenderState, event: RenderEvent) -> (RenderState, RenderAction) {
    match (state, event) {
        (RenderState::Terminated, _) => (RenderState::Terminated, RenderAction::Wait),
        (_, RenderEvent::Terminate) => (RenderState::Terminated, RenderAction::Stop),
        (RenderState::AwaitingReady, RenderEvent::Ready) => (
            RenderState::Rendering,
            RenderAction::Render,
        ),
        (RenderState::Rendering, RenderEvent::Rendered) => (
            RenderState::FrameSent,
            RenderAction::SendFrame,
        ),
        (RenderState::FrameSent, RenderEvent::Sent) => (
            RenderState::AwaitingReady,
            RenderAction::Wait,
        ),
        _ => (state, RenderAction::Wait),
    }
}

/// One transition of the render worker.
pub fn render_step(state: RenderState, event: RenderEvent) -> (result: (RenderState, RenderAction))
    ensures
        result == render_next(state, event),
{
    match state {
        RenderState::Terminated => (RenderState::Terminated, RenderAction::Wait),
        _ => match event {
            RenderEvent::Terminate => (RenderState::Terminated, RenderAction::Stop),
            RenderEvent::Ready => match state {
                RenderState::AwaitingReady => (RenderState::Rendering, RenderAction::Render),
                _ => (state, RenderAction::Wait),
            },
            RenderEvent::Rendered => match state {
                RenderState::Rendering => (RenderState::FrameSent, RenderAction::SendFrame),
                _ => (state, RenderAction::Wait),
            },
            RenderEvent::Sent => match state {
                RenderState::FrameSent => (RenderState::AwaitingReady, RenderAction::Wait),
                _ => (state, RenderAction::Wait),
            },
        },
    }
}

/// The worker draws only on a ready token that it was awaiting, sends only
/// what it has drawn, and awaits the next token only once the frame is sent:
/// each frame answers exactly one ready token.
pub proof fn lemma_render_cycle(state: RenderState, event: RenderEvent)
    ensures
        render_next(state, event).1 == RenderAction::Render <==> (state
            == RenderState::AwaitingReady && event == RenderEvent::Ready),
        render_next(state, event).1 == RenderAction::SendFrame <==> (state == RenderState::Rendering
            && event == RenderEvent::Rendered),
        state == RenderState::Terminated ==> render_next(state, event).0 == RenderState::Terminated,
        event == RenderEvent::Terminate ==> render_next(state, event).0 == RenderState::Terminated,
{
}

/// The driving loop's side of the handshake: whether a ready token is out
/// that no frame has answered yet, and whether the loop has ended.
#[derive(Clone, Copy, Debug, PartialEq, Eq, Structural)]
pub struct Handshake {
    pub awaiting_frame: bool,
    pub terminated: bool,
}

impl Handshake {
    /// The handshake after a tick, and whether the tick sends a ready token:
    /// it does unless the loop has ended or a token is still unanswered.
    pub open spec fn after_tick(self) -> (Handshake, bool) {
        if self.terminated || self.awaiting_frame {
            (self, false)
        } else {
            (Handshake { awaiting_frame: true, ..self }, true)
        }
    }

    /// The handshake after a frame has arrived.
    pub open spec fn after_frame(self) -> Handshake {
        Handshake { awaiting_frame: false, ..self }
    }

    /// A running loop with no token out.
    pub fn new() -> (result: Handshake)
        ensures
            result == (Handshake { awaiting_frame: false, terminated: false }),
    {
        Handshake { awaiting_frame: false, terminated: false }
    }

    /// One tick of the driving loop: says whether to send a ready token.
    pub fn tick(&mut self) -> (send_ready: bool)
        ensures
            (*final(self), send_ready) == old(self).after_tick(),
    {
        if self.terminated || self.awaiting_frame {
            false
        } else {
            self.awaiting_frame = true;
            true
        }
    }

    /// A frame has arrived: the token that was out is answered.
    pub fn frame_received(&mut self)
        ensures
            *final(self) == old(self).after_frame(),
    {
        self.awaiting_frame = false;
    }

    /// The loop ends: no ready token is sent from now on.
    pub fn terminate(&mut self)
        ensures
            *final(self) == (Handshake { terminated: true, ..*old(self) }),
    {
        self.terminated = true;
    }
}

/// Between two ready tokens there is a frame: a tick right after a tick
/// sends nothing, whatever the state, and once a frame has answered the
/// token a running loop's next tick sends one again.
pub proof fn lemma_one_ready_per_frame(handshake: Handshake)
    ensures
        !handshake.after_tick().0.after_tick().1,
        handshake.after_tick().1 ==> handshake.after_tick().0.awaiting_frame,
        !handshake.terminated ==> handshake.after_tick().0.after_frame().after_tick().1,
        handshake.terminated ==> !handshake.after_tick().1,
{
}

/// The identifiers of the command slots: eight for movement, one for the
/// ability and one for leaving.
#[derive(Clone, Copy, Debug, PartialEq, Eq, Structural)]
pub struct Controls {
    pub up_left: i32,
    pub up: i32,
    pub up_right: i32,
    pub left: i32,
    pub action: i32,
    pub right: i32,
    pub down_left: i32,
    pub down: i32,
    pub down_right: i32,
    pub exit: i32,
}

/// What an input event asks for. A movement names the direction along each
/// axis: -1, 0 or 1, with `y` growing downwards.
#[derive(Clone, Copy, Debug, PartialEq, Eq, Structural)]
pub enum Command {
    Exit,
    Ability,
    Move { x: i8, y: i8 },
}

/// The command of the slot that an identifier names, or `None` for an
/// identifier that names no slot. Where slots share an identifier, the
/// first in this order counts.
pub open spec fn command_for(controls: Controls, id: i32) -> Option<Command> {
    if id == controls.exit {
        Some(Command::Exit)
    } else if id == controls.action {
        Some(Command::Ability)
    } else if id == controls.up_left {
        Some(Command::Move { x: -1i8, y: -1i8 })
    } else if id == controls.up {
        Some(Command::Move { x: 0, y: -1i8 })
    } else if id == controls.up_right {
        Some(Command::Move { x: 1, y: -1i8 })
    } else if id == controls.down {
        Some(Command::Move { x: 0, y: 1 })
    } else if id == controls.down_left {
        Some(Command::Move { x: -1i8, y: 1 })
    } else if id == controls.down_right {
        Some(Command::Move { x: 1, y: 1 })
    } else if id == controls.left {
        Some(Command::Move { x: -1i8, y: 0 })
    } else if id == controls.right {
        Some(Command::Move { x: 1, y: 0 })
    } else {
        None
    }
}

/// How far a movement command moves along an axis in a given direction.
pub open spec fn stride(direction: i8) -> int {
    if direction < 0 {
        -STRIDE
    } else if direction > 0 {
        STRIDE as int
    } else {
        0
    }
}

/// The player after a movement command.
pub open spec fn moved(player: Object, x: i8, y: i8) -> Object {
    Object { x: (player.x + stride(x)) as i64, y: (player.y + stride(y)) as i64, ..player }
}

impl Controls {
    /// The command that an input event's identifier asks for; identifiers
    /// that name no slot ask for nothing.
    pub fn command(&self, id: i32) -> (result: Option<Command>)
        ensures
            result == command_for(*self, id),
    {
        if id == self.exit {
            Some(Command::Exit)
        } else if id == self.action {
            Some(Command::Ability)
        } else if id == self.up_left {
            Some(Command::Move { x: -1i8, y: -1i8 })
        } else if id == self.up {
            Some(Command::Move { x: 0, y: -1i8 })
        } else if id == self.up_right {
            Some(Command::Move { x: 1, y: -1i8 })
        } else if id == self.down {
            Some(Command::Move { x: 0, y: 1 })
        } else if id == self.down_left {
            Some(Command::Move { x: -1i8, y: 1 })
        } else if id == self.down_right {
            Some(Command::Move { x: 1, y: 1 })
        } else if id == self.left {
            Some(Command::Move { x: -1i8, y: 0 })
        } else if id == self.right {
            Some(Command::Move { x: 1, y: 0 })
        } else {
            None
        }
    }
}

/// Carries out a command on the scene and says whether the loop goes on.
/// Leaving changes nothing and ends the loop; the ability damages the
/// player's target; a movement moves the player a stride along each axis,
/// vertically first.
pub fn apply_command(command: Command, player: &mut Object, enemies: &mut Vec<Object>) -> (running:
    bool)
    requires
        playable(*old(player), old(enemies)@),
    ensures
        running == (command != Command::Exit),
        final(enemies)@.len() == old(enemies)@.len(),
        match command {
            Command::Exit => *final(player) == *old(player) && final(enemies)@ == old(enemies)@,
            Command::Ability => {
                &&& *final(player) == *old(player)
                &&& forall|i: int|
                    0 <= i < old(enemies)@.len() ==> #[trigger] final(enemies)@[i] == (if is_hit(
                        *old(player),
                        old(player).magnitude(),
                        old(enemies)@,
                        i,
                    ) {
                        damaged(old(enemies)@[i], old(player).magnitude())
                    } else {
                        old(enemies)@[i]
                    })
            },
            Command::Move { x, y } => {
                &&& *final(player) == moved(*old(player), x, y)
                &&& final(enemies)@ == old(enemies)@
            },
        },
{
    match command {
        Command::Exit => false,
        Command::Ability => {
            let _ = player.use_ability(enemies);
            true
        },
        Command::Move { x, y } => {
            if y < 0 {
                player.up(STRIDE);
            } else if y > 0 {
                player.down(STRIDE);
            }
            if x < 0 {
                player.left(STRIDE);
            } else if x > 0 {
                player.right(STRIDE);
            }
            true
        },
    }
}

} // verus!
