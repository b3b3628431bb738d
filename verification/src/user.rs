//! One player's session state: the robot their programs run on.

use vstd::prelude::*;

use crate::robot::Robot;

verus! {

/// A connected player.
#[derive(Clone)]
pub struct User {
    robot: Robot,
}

impl User {
    /// The player's robot is in its power-on state.
    pub closed spec fn robot_is_initial(self) -> bool {
        self.robot.is_initial()
    }

    /// A new player with a freshly powered-on robot.
    pub fn new() -> (r: Self)
        ensures
            r.robot_is_initial(),
    {
        let robot = Robot::default();
        User { robot }
    }
}

} // verus!
