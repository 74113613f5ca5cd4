//! Mounts: a rider sits at a fixed offset from the mount it rides.
use vstd::prelude::*;
use crate::math::IVec2;

verus! {

/// Where on a mount its rider sits, relative to the mount's position.
#[derive(Debug, Clone, Copy)]
pub struct MountOrigin {
    pub origin: IVec2,
}

impl MountOrigin {
    /// The rider's position for the mount at `mount_position`.
    pub fn rider_position(&self, mount_position: IVec2) -> (rider: IVec2)
        requires
            i32::MIN <= mount_position.x + self.origin.x <= i32::MAX,
            i32::MIN <= mount_position.y + self.origin.y <= i32::MAX,
        ensures
            rider.x == mount_position.x + self.origin.x,
            rider.y == mount_position.y + self.origin.y,
    {
        IVec2 { x: mount_position.x + self.origin.x, y: mount_position.y + self.origin.y }
    }
}

} // verus!
