//! The playfield and every length, speed and count that is derived from it.

use vstd::prelude::*;

verus! {

/// Largest width or height of a playfield, in world units.
pub const MAX_EXTENT: u32 = 0x4000_0000;

/// Smallest width of a playfield: below it a pickup would have no radius.
pub const MIN_WIDTH: u32 = 100;

/// Largest number of background stars.
pub const MAX_STARS: u32 = 255;

/// The rectangle in which the game takes place, centred on the origin.
#[derive(Clone, Copy, Debug, PartialEq, Eq, Structural)]
pub struct Playfield {
    pub width: u32,
    pub height: u32,
}

/// Whether `v` is a coordinate at which a body of radius `size` may be placed
/// at random along an axis of length `extent`: at least `size` away from the
/// lower edge and more than `size` away from the upper edge.
pub open spec fn in_spawn_range(v: int, size: int, extent: int) -> bool {
    size - extent / 2 <= v < extent / 2 - size
}

impl Playfield {
    /// A playfield is usable when its width is between [`MIN_WIDTH`] and
    /// [`MAX_EXTENT`], its height is at most [`MAX_EXTENT`], and an orb fits
    /// between the upper and the lower edge with room to spare.
    pub open spec fn wf(self) -> bool {
        &&& MIN_WIDTH <= self.width <= MAX_EXTENT
        &&& self.height <= MAX_EXTENT
        &&& self.width / 10 < self.height / 2
    }

    /// The playfield of the given size, if that size is usable.
    pub fn new(width: u32, height: u32) -> (field: Option<Playfield>)
        ensures
            field == (if (Playfield { width, height }).wf() {
                Some(Playfield { width, height })
            } else {
                None::<Playfield>
            }),
    {
        if MIN_WIDTH <= width && width <= MAX_EXTENT && height <= MAX_EXTENT && width / 10 < height
            / 2 {
            Some(Playfield { width, height })
        } else {
            None
        }
    }

    pub open spec fn spec_half_width(self) -> u32 {
        self.width / 2
    }

    /// Distance from the centre to the left and right edges.
    #[verifier::when_used_as_spec(spec_half_width)]
    pub fn half_width(self) -> (r: u32)
        ensures
            r == self.half_width(),
    {
        self.width / 2
    }

    pub open spec fn spec_half_height(self) -> u32 {
        self.height / 2
    }

    /// Distance from the centre to the upper and lower edges.
    #[verifier::when_used_as_spec(spec_half_height)]
    pub fn half_height(self) -> (r: u32)
        ensures
            r == self.half_height(),
    {
        self.height / 2
    }

    pub open spec fn spec_pickup_size(self) -> u32 {
        self.width / 100
    }

    /// Radius of a pickup: a hundredth of the width.
    #[verifier::when_used_as_spec(spec_pickup_size)]
    pub fn pickup_size(self) -> (r: u32)
        ensures
            r == self.pickup_size(),
    {
        self.width / 100
    }

    pub open spec fn spec_orb_size(self) -> u32 {
        self.width / 10
    }

    /// Radius of an orb: a tenth of the width.
    #[verifier::when_used_as_spec(spec_orb_size)]
    pub fn orb_size(self) -> (r: u32)
        ensures
            r == self.orb_size(),
    {
        self.width / 10
    }

    pub open spec fn spec_star_size(self) -> u32 {
        self.width / 1000
    }

    /// Radius of a background star: a thousandth of the width.
    #[verifier::when_used_as_spec(spec_star_size)]
    pub fn star_size(self) -> (r: u32)
        ensures
            r == self.star_size(),
    {
        self.width / 1000
    }

    pub open spec fn spec_player_size(self) -> u32 {
        self.width / 50
    }

    /// Radius of the player: a fiftieth of the width.
    #[verifier::when_used_as_spec(spec_player_size)]
    pub fn player_size(self) -> (r: u32)
        ensures
            r == self.player_size(),
    {
        self.width / 50
    }

    pub open spec fn spec_player_speed(self) -> u32 {
        self.width / 3
    }

    /// Speed of the player, per second: a third of the width.
    #[verifier::when_used_as_spec(spec_player_speed)]
    pub fn player_speed(self) -> (r: u32)
        ensures
            r == self.player_speed(),
    {
        self.width / 3
    }

    pub open spec fn spec_star_speed(self) -> u32 {
        self.width / 2000
    }

    /// Distance a star scrolls per tick: a two-thousandth of the width.
    #[verifier::when_used_as_spec(spec_star_speed)]
    pub fn star_speed(self) -> (r: u32)
        ensures
            r == self.star_speed(),
    {
        self.width / 2000
    }

    pub open spec fn spec_initial_orb_speed(self) -> u32 {
        (self.width as int * 2 / 15) as u32
    }

    /// Speed of the orbs, per second, when a level is first set up: the width
    /// divided by seven and a half.
    #[verifier::when_used_as_spec(spec_initial_orb_speed)]
    pub fn initial_orb_speed(self) -> (r: u32)
        ensures
            r == self.initial_orb_speed(),
    {
        (self.width as u64 * 2 / 15) as u32
    }

    pub open spec fn spec_restart_orb_speed(self) -> u32 {
        self.width / 8
    }

    /// Speed of the orbs, per second, after a restart: an eighth of the width.
    #[verifier::when_used_as_spec(spec_restart_orb_speed)]
    pub fn restart_orb_speed(self) -> (r: u32)
        ensures
            r == self.restart_orb_speed(),
    {
        self.width / 8
    }

    pub open spec fn spec_orb_speed_step(self) -> u32 {
        self.width / 700
    }

    /// What a collected pickup adds to the speed of the orbs.
    #[verifier::when_used_as_spec(spec_orb_speed_step)]
    pub fn orb_speed_step(self) -> (r: u32)
        ensures
            r == self.orb_speed_step(),
    {
        self.width / 700
    }

    pub open spec fn spec_star_count(self) -> u32 {
        if self.width as int * 100 / (self.height as int) < MAX_STARS {
            (self.width as int * 100 / (self.height as int)) as u32
        } else {
            MAX_STARS
        }
    }

    /// Number of background stars: a hundred times the aspect ratio, rounded
    /// down, and at most [`MAX_STARS`].
    #[verifier::when_used_as_spec(spec_star_count)]
    pub fn star_count(self) -> (r: u32)
        requires
            self.height > 0,
        ensures
            r == self.star_count(),
    {
        let ratio: u64 = self.width as u64 * 100 / (self.height as u64);
        if ratio < MAX_STARS as u64 {
            ratio as u32
        } else {
            MAX_STARS
        }
    }

    /// Horizontal start of the orb with running number `index` among the
    /// orbs of radius `size`: beyond the right edge, three radii apart.
    pub open spec fn orb_start_x(self, size: int, index: int) -> int {
        (self.width + size + index * size * 2 + index * size) - self.width / 2
    }

    /// Horizontal position of the player after a restart: a quarter of the
    /// width to the left of the centre.
    pub open spec fn restart_player_x(self) -> int {
        -(self.width as int / 4)
    }
}

} // verus!
