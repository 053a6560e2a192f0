//! What a frame does with the keys that are held: which surface is selected,
//! how the camera moves, whether the program goes on, and what is drawn.

use crate::shading::ShaderType;
use vstd::prelude::*;

verus! {

/// The keys that the program reads, each `true` while it is held.
#[derive(Clone, Copy, Debug, PartialEq, Eq, Structural)]
pub struct Keys {
    pub escape: bool,
    pub key1: bool,
    pub key2: bool,
    pub key3: bool,
    pub key4: bool,
    pub key5: bool,
    pub key6: bool,
    pub key7: bool,
    pub left: bool,
    pub right: bool,
    pub up: bool,
    pub down: bool,
    pub w: bool,
    pub s: bool,
    pub a: bool,
    pub d: bool,
    pub q: bool,
    pub e: bool,
}

/// One movement of the camera. The amounts count steps of the camera's
/// rotation, movement and zoom speed.
#[derive(Clone, Copy, Debug, PartialEq, Eq, Structural)]
pub enum CameraCommand {
    /// Turn around the centre by `yaw` steps sideways and `pitch` steps up.
    Orbit { yaw: i8, pitch: i8 },
    /// Move the centre by `dx` steps to the right and `dy` steps up.
    MoveCenter { dx: i8, dy: i8 },
    /// Move towards the centre by `steps`.
    Zoom { steps: i8 },
}

/// The surface selected after a frame in which `keys` are held: that of the
/// highest digit key held, and `current` if none is.
pub open spec fn selected_shader(current: ShaderType, keys: Keys) -> ShaderType {
    if keys.key7 {
        ShaderType::GlacialTextured
    } else if keys.key6 {
        ShaderType::AlienPlanet
    } else if keys.key5 {
        ShaderType::RockyPlanetVariant
    } else if keys.key4 {
        ShaderType::RockyPlanet
    } else if keys.key3 {
        ShaderType::Solar
    } else if keys.key2 {
        ShaderType::ColdGasGiant
    } else if keys.key1 {
        ShaderType::GasGiant
    } else {
        current
    }
}

/// One command if `held`, none otherwise.
#[verifier::opaque]
pub open spec fn if_held(held: bool, command: CameraCommand) -> Seq<CameraCommand> {
    if held {
        seq![command]
    } else {
        Seq::empty()
    }
}

/// Steps along an axis for a pair of opposite keys: they cancel if both are
/// held.
pub open spec fn axis(forward: bool, backward: bool) -> int {
    (if forward {
        1int
    } else {
        0int
    }) - (if backward {
        1int
    } else {
        0int
    })
}

/// The orbits of a frame: for the arrow keys left and right, then for W and
/// S.
pub open spec fn orbit_moves(keys: Keys) -> Seq<CameraCommand> {
    if_held(keys.left, CameraCommand::Orbit { yaw: 1, pitch: 0 }) + if_held(
        keys.right,
        CameraCommand::Orbit { yaw: -1i8, pitch: 0 },
    ) + if_held(keys.w, CameraCommand::Orbit { yaw: 0, pitch: -1i8 }) + if_held(
        keys.s,
        CameraCommand::Orbit { yaw: 0, pitch: 1 },
    )
}

/// The movement of the centre in a frame: one for A, D, Q and E together,
/// none if they cancel.
pub open spec fn center_moves(keys: Keys) -> Seq<CameraCommand> {
    if_held(
        axis(keys.d, keys.a) != 0 || axis(keys.q, keys.e) != 0,
        CameraCommand::MoveCenter {
            dx: axis(keys.d, keys.a) as i8,
            dy: axis(keys.q, keys.e) as i8,
        },
    )
}

/// The zooms of a frame: for the arrow keys up and down.
pub open spec fn zoom_moves(keys: Keys) -> Seq<CameraCommand> {
    if_held(keys.up, CameraCommand::Zoom { steps: 1 }) + if_held(
        keys.down,
        CameraCommand::Zoom { steps: -1i8 },
    )
}

/// The camera's movements in a frame in which `keys` are held, in the order
/// in which they are made: the orbits, the movement of the centre, the zooms.
pub open spec fn camera_moves(keys: Keys) -> Seq<CameraCommand> {
    orbit_moves(keys) + center_moves(keys) + zoom_moves(keys)
}

/// The surface to draw with after this frame's keys.
pub fn select_shader(current: ShaderType, keys: &Keys) -> (shader: ShaderType)
    ensures
        shader == selected_shader(current, *keys),
{
    let mut shader: ShaderType = current;
    if keys.key1 {
        shader = ShaderType::GasGiant;
    }
    if keys.key2 {
        shader = ShaderType::ColdGasGiant;
    }
    if keys.key3 {
        shader = ShaderType::Solar;
    }
    if keys.key4 {
        shader = ShaderType::RockyPlanet;
    }
    if keys.key5 {
        shader = ShaderType::RockyPlanetVariant;
    }
    if keys.key6 {
        shader = ShaderType::AlienPlanet;
    }
    if keys.key7 {
        shader = ShaderType::GlacialTextured;
    }
    shader
}

/// Appends `command` if `held`.
fn push_if_held(commands: &mut Vec<CameraCommand>, held: bool, command: CameraCommand)
    ensures
        final(commands)@ == old(commands)@ + if_held(held, command),
{
    reveal(if_held);
    if held {
        commands.push(command);
    }
    assert(commands@ =~= old(commands)@ + if_held(held, command));
}

/// Steps along an axis for a pair of opposite keys.
fn axis_steps(forward: bool, backward: bool) -> (steps: i8)
    ensures
        steps == axis(forward, backward),
{
    let mut steps: i8 = 0;
    if forward {
        steps = steps + 1;
    }
    if backward {
        steps = steps - 1;
    }
    steps
}

/// The camera's movements for this frame's keys.
pub fn handle_input(keys: &Keys) -> (commands: Vec<CameraCommand>)
    ensures
        commands@ == camera_moves(*keys),
{
    let mut commands: Vec<CameraCommand> = Vec::new();
    push_if_held(&mut commands, keys.left, CameraCommand::Orbit { yaw: 1, pitch: 0 });
    push_if_held(&mut commands, keys.right, CameraCommand::Orbit { yaw: -1, pitch: 0 });
    push_if_held(&mut commands, keys.w, CameraCommand::Orbit { yaw: 0, pitch: -1 });
    push_if_held(&mut commands, keys.s, CameraCommand::Orbit { yaw: 0, pitch: 1 });
    assert(commands@ =~= orbit_moves(*keys));
    let dx: i8 = axis_steps(keys.d, keys.a);
    let dy: i8 = axis_steps(keys.q, keys.e);
    push_if_held(&mut commands, dx != 0 || dy != 0, CameraCommand::MoveCenter { dx, dy });
    assert(commands@ == orbit_moves(*keys) + center_moves(*keys));
    push_if_held(&mut commands, keys.up, CameraCommand::Zoom { steps: 1 });
    push_if_held(&mut commands, keys.down, CameraCommand::Zoom { steps: -1 });
    assert(commands@ =~= camera_moves(*keys));
    commands
}

/// What the frame loop carries from one frame to the next.
#[derive(Clone, Copy, Debug, PartialEq, Eq, Structural)]
pub struct FrameState {
    /// The surface that the planet is drawn with.
    pub shader: ShaderType,
    /// Frames drawn so far.
    pub time: u32,
}

impl FrameState {
    /// The state before the first frame: the rocky planet, at time 0.
    pub fn new() -> (state: FrameState)
        ensures
            state == (FrameState { shader: ShaderType::RockyPlanet, time: 0 }),
    {
        FrameState { shader: ShaderType::RockyPlanet, time: 0 }
    }

    /// The state after a frame in which `keys` are held, or `None` where the
    /// frame is not drawn because Escape is held.
    pub open spec fn after(self, keys: Keys) -> Option<FrameState> {
        if keys.escape {
            None
        } else {
            Some(
                FrameState {
                    shader: selected_shader(self.shader, keys),
                    time: (self.time + 1) as u32,
                },
            )
        }
    }

    /// Starts a frame: `None` ends the program, otherwise the result is the
    /// state to draw the frame with.
    pub fn step(&self, keys: &Keys) -> (next: Option<FrameState>)
        requires
            keys.escape || self.time < u32::MAX,
        ensures
            next == self.after(*keys),
    {
        if keys.escape {
            None
        } else {
            Some(FrameState { shader: select_shader(self.shader, keys), time: self.time + 1 })
        }
    }

    /// Whether the moon is drawn beside the planet: only the rocky planet has
    /// one.
    pub fn draws_moon(&self) -> (moon: bool)
        ensures
            moon == (self.shader == ShaderType::RockyPlanet),
    {
        self.shader == ShaderType::RockyPlanet
    }
}

} // verus!
