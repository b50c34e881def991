//! Poses on the grid and the single-vehicle command interpreter.

use vstd::prelude::*;
use vstd::string::StringSliceAdditionalSpecFns;

verus! {

/// Largest absolute `x` coordinate on the grid.
pub const X_MAX: i32 = 6;

/// Largest absolute `y` coordinate on the grid.
pub const Y_MAX: i32 = 5;

/// Whether `(x, y)` lies on the grid.
pub open spec fn in_bounds(x: int, y: int) -> bool {
    -(X_MAX as int) <= x <= X_MAX as int && -(Y_MAX as int) <= y <= Y_MAX as int
}

/// The four compass headings.
pub open spec fn is_heading(c: char) -> bool {
    c == 'N' || c == 'E' || c == 'S' || c == 'W'
}

/// Heading after a quarter turn to the left: E -> N -> W -> S -> E.
pub open spec fn left_of(c: char) -> char {
    if c == 'E' {
        'N'
    } else if c == 'N' {
        'W'
    } else if c == 'W' {
        'S'
    } else if c == 'S' {
        'E'
    } else {
        'N'
    }
}

/// Heading after a quarter turn to the right: E -> S -> W -> N -> E.
pub open spec fn right_of(c: char) -> char {
    if c == 'E' {
        'S'
    } else if c == 'S' {
        'W'
    } else if c == 'W' {
        'N'
    } else if c == 'N' {
        'E'
    } else {
        'N'
    }
}

/// An oriented grid position, with a flag set on a freshly fired projectile.
#[derive(Debug, Copy, Clone, PartialEq, Eq, Structural)]
pub struct Pose {
    pub x: i32,
    pub y: i32,
    pub heading: char,
    pub is_shoot: bool,
}

/// The pose one step ahead: N and S decrease and increase `y`, E and W
/// increase and decrease `x`; a step that would leave the grid keeps the
/// coordinate. The firing flag is cleared.
pub open spec fn forward_of(p: Pose) -> Pose {
    let x = p.x as int;
    let y = p.y as int;
    let (nx, ny) = if p.heading == 'E' {
        (if x < X_MAX as int { x + 1 } else { x }, y)
    } else if p.heading == 'W' {
        (if x > -(X_MAX as int) { x - 1 } else { x }, y)
    } else if p.heading == 'S' {
        (x, if y < Y_MAX as int { y + 1 } else { y })
    } else if p.heading == 'N' {
        (x, if y > -(Y_MAX as int) { y - 1 } else { y })
    } else {
        (x, y)
    };
    Pose { x: nx as i32, y: ny as i32, heading: p.heading, is_shoot: false }
}

impl Pose {
    /// A valid pose: a compass heading and a position on the grid.
    pub open spec fn wf(self) -> bool {
        is_heading(self.heading) && in_bounds(self.x as int, self.y as int)
    }

    /// A pose at `(x, y)` facing `heading`, not firing.
    pub fn new(x: i32, y: i32, heading: char) -> (r: Pose)
        requires
            is_heading(heading),
            in_bounds(x as int, y as int),
        ensures
            r == (Pose { x, y, heading, is_shoot: false }),
            r.wf(),
    {
        Pose { x, y, heading, is_shoot: false }
    }

    /// Quarter turn to the left, in place; clears the firing flag.
    pub fn left(self) -> (r: Pose)
        ensures
            r == (Pose { heading: left_of(self.heading), is_shoot: false, ..self }),
    {
        let heading = if self.heading == 'E' {
            'N'
        } else if self.heading == 'N' {
            'W'
        } else if self.heading == 'W' {
            'S'
        } else if self.heading == 'S' {
            'E'
        } else {
            'N'
        };
        Pose { x: self.x, y: self.y, heading, is_shoot: false }
    }

    /// Quarter turn to the right, in place; clears the firing flag.
    pub fn right(self) -> (r: Pose)
        ensures
            r == (Pose { heading: right_of(self.heading), is_shoot: false, ..self }),
    {
        let heading = if self.heading == 'E' {
            'S'
        } else if self.heading == 'S' {
            'W'
        } else if self.heading == 'W' {
            'N'
        } else if self.heading == 'N' {
            'E'
        } else {
            'N'
        };
        Pose { x: self.x, y: self.y, heading, is_shoot: false }
    }

    /// One step ahead, held at the edge of the grid.
    pub fn translate_forward(self) -> (r: Pose)
        requires
            self.wf(),
        ensures
            r == forward_of(self),
            r.wf(),
    {
        let (x, y) = if self.heading == 'E' {
            (if self.x < X_MAX { self.x + 1 } else { self.x }, self.y)
        } else if self.heading == 'W' {
            (if self.x > -X_MAX { self.x - 1 } else { self.x }, self.y)
        } else if self.heading == 'S' {
            (self.x, if self.y < Y_MAX { self.y + 1 } else { self.y })
        } else {
            (self.x, if self.y > -Y_MAX { self.y - 1 } else { self.y })
        };
        Pose { x, y, heading: self.heading, is_shoot: false }
    }
}

impl Default for Pose {
    /// The origin, facing north.
    fn default() -> (r: Pose)
        ensures
            r == (Pose { x: 0, y: 0, heading: 'N', is_shoot: false }),
    {
        Pose { x: 0, y: 0, heading: 'N', is_shoot: false }
    }
}

/// A movement command understood by a vehicle.
#[derive(Debug, Copy, Clone, PartialEq, Eq, Structural)]
pub enum Command {
    Forward,
    RotateLeft,
    RotateRight,
    Unknown,
}

/// The command named by the bytes of a command string: `"M"` or
/// `"forward"`, `"L"` or `"rotate-left"`, `"R"` or `"rotate-right"`;
/// anything else is unknown.
pub open spec fn command_of(b: Seq<u8>) -> Command {
    if b == "M".spec_bytes() || b == "forward".spec_bytes() {
        Command::Forward
    } else if b == "L".spec_bytes() || b == "rotate-left".spec_bytes() {
        Command::RotateLeft
    } else if b == "R".spec_bytes() || b == "rotate-right".spec_bytes() {
        Command::RotateRight
    } else {
        Command::Unknown
    }
}

/// The pose after a command; an unknown command changes nothing.
pub open spec fn apply_command(p: Pose, c: Command) -> Pose {
    match c {
        Command::Forward => forward_of(p),
        Command::RotateLeft => Pose { heading: left_of(p.heading), is_shoot: false, ..p },
        Command::RotateRight => Pose { heading: right_of(p.heading), is_shoot: false, ..p },
        Command::Unknown => p,
    }
}

fn same_bytes(a: &[u8], b: &[u8]) -> (r: bool)
    ensures
        r == (a@ == b@),
{
    if a.len() != b.len() {
        return false;
    }
    let mut i: usize = 0;
    while i < a.len()
        invariant
            a@.len() == b@.len(),
            0 <= i <= a@.len(),
            a@.subrange(0, i as int) == b@.subrange(0, i as int),
        decreases a@.len() - i,
    {
        if a[i] != b[i] {
            return false;
        }
        assert(a@.subrange(0, i + 1) == a@.subrange(0, i as int).push(a@[i as int]));
        assert(b@.subrange(0, i + 1) == b@.subrange(0, i as int).push(b@[i as int]));
        i = i + 1;
    }
    assert(a@ == a@.subrange(0, i as int));
    assert(b@ == b@.subrange(0, i as int));
    true
}

impl Command {
    /// Reads a command string.
    pub fn parse(cmds: &str) -> (r: Command)
        ensures
            r == command_of(cmds.spec_bytes()),
    {
        let b = cmds.as_bytes();
        if same_bytes(b, "M".as_bytes()) || same_bytes(b, "forward".as_bytes()) {
            Command::Forward
        } else if same_bytes(b, "L".as_bytes()) || same_bytes(b, "rotate-left".as_bytes()) {
            Command::RotateLeft
        } else if same_bytes(b, "R".as_bytes()) || same_bytes(b, "rotate-right".as_bytes()) {
            Command::RotateRight
        } else {
            Command::Unknown
        }
    }
}

/// Why a vehicle refused a request.
#[derive(Debug, Copy, Clone, PartialEq, Eq, Structural)]
pub enum AgentError {
    /// The vehicle has no pose.
    InvalidState,
}

/// One vehicle: an optional pose and an interpreter of movement commands.
#[derive(Debug, Copy, Clone, PartialEq, Eq, Structural)]
pub struct Executor {
    pub pose: Option<Pose>,
}

impl Executor {
    /// A vehicle whose pose is valid, if it has one.
    pub open spec fn wf(self) -> bool {
        self.pose is Some ==> self.pose->Some_0.wf()
    }

    /// A vehicle at `pose`.
    pub fn with_pose(pose: Pose) -> (r: Executor)
        ensures
            r.pose == Some(pose),
    {
        Executor { pose: Some(pose) }
    }

    /// Carries out one command; an unknown command leaves the pose as it is.
    pub fn apply(&mut self, cmd: Command) -> (r: Result<(), AgentError>)
        requires
            old(self).wf(),
        ensures
            final(self).wf(),
            match old(self).pose {
                None => r == Err::<(), AgentError>(AgentError::InvalidState) && *final(self) == *old(self),
                Some(p) => r is Ok && final(self).pose == Some(apply_command(p, cmd)),
            },
    {
        match self.pose {
            None => Err(AgentError::InvalidState),
            Some(p) => {
                let q = match cmd {
                    Command::Forward => p.translate_forward(),
                    Command::RotateLeft => p.left(),
                    Command::RotateRight => p.right(),
                    Command::Unknown => p,
                };
                self.pose = Some(q);
                Ok(())
            },
        }
    }

    /// Reads and carries out one command string.
    pub fn execute(&mut self, cmds: &str) -> (r: Result<(), AgentError>)
        requires
            old(self).wf(),
        ensures
            final(self).wf(),
            match old(self).pose {
                None => r == Err::<(), AgentError>(AgentError::InvalidState) && *final(self) == *old(self),
                Some(p) => r is Ok && final(self).pose == Some(
                    apply_command(p, command_of(cmds.spec_bytes())),
                ),
            },
    {
        let cmd = Command::parse(cmds);
        self.apply(cmd)
    }

    /// Position and heading.
    pub fn query(&self) -> (r: Result<(i32, i32, char), AgentError>)
        ensures
            match self.pose {
                None => r == Err::<(i32, i32, char), AgentError>(AgentError::InvalidState),
                Some(p) => r == Ok::<(i32, i32, char), AgentError>((p.x, p.y, p.heading)),
            },
    {
        match self.pose {
            None => Err(AgentError::InvalidState),
            Some(p) => Ok((p.x, p.y, p.heading)),
        }
    }
}

impl Default for Executor {
    /// A vehicle without a pose.
    fn default() -> (r: Executor)
        ensures
            r.pose is None,
    {
        Executor { pose: None }
    }
}

/// Four quarter turns either way bring a pose back to itself, and a right
/// turn undoes a left turn's heading.
pub proof fn lemma_four_turns(p: Pose)
    requires
        is_heading(p.heading),
        !p.is_shoot,
    ensures
        apply_command(apply_command(apply_command(apply_command(p, Command::RotateLeft), Command::RotateLeft), Command::RotateLeft), Command::RotateLeft) == p,
        apply_command(apply_command(apply_command(apply_command(p, Command::RotateRight), Command::RotateRight), Command::RotateRight), Command::RotateRight) == p,
        apply_command(apply_command(p, Command::RotateLeft), Command::RotateRight).heading == p.heading,
{
}

/// However many steps ahead a valid pose takes, it stays on the grid.
pub proof fn lemma_forward_stays_on_grid(p: Pose, n: nat)
    requires
        p.wf(),
    ensures
        forward_n(p, n).wf(),
        -(X_MAX as int) <= forward_n(p, n).x <= X_MAX as int,
        -(Y_MAX as int) <= forward_n(p, n).y <= Y_MAX as int,
    decreases n,
{
    if n > 0 {
        lemma_forward_stays_on_grid(p, (n - 1) as nat);
    }
}

/// The pose after `n` steps ahead.
pub open spec fn forward_n(p: Pose, n: nat) -> Pose
    decreases n,
{
    if n == 0 {
        p
    } else {
        forward_of(forward_n(p, (n - 1) as nat))
    }
}

} // verus!
