//! The scene: one player and an ordered list of enemies, with the rules that
//! move, damage and remove them.
//!
//! Positions, sizes, magnitudes and hit points are thousandths of a unit.

use vstd::prelude::*;
use crate::canvas::rgb;
use crate::overlay::OPACITY_FULL;
use crate::overlay::Overlay;

verus! {

/// One whole unit, in thousandths.
pub const UNIT: i64 = 1000;

/// The largest distance from the origin, and the largest size and magnitude,
/// that the rules compute with: 2^40 thousandths.
pub const WORLD_MAX: i64 = 1_099_511_627_776;

/// The distance that an ability reaches beyond one and a half times its
/// magnitude, doubled: 19.5 units.
pub const REACH_BASE_DOUBLED: i64 = 39_000;

#[derive(Clone, Copy, Debug, PartialEq, Eq, Structural)]
pub enum EnemyType {
    Weak,
    Medium,
    Strong,
}

#[derive(Clone, Copy, Debug, PartialEq, Eq, Structural)]
pub enum ObjectName {
    Player,
    Enemy(EnemyType),
}

/// What an object can do. A projectile takes its magnitude from the hit
/// points of the nearest object within reach.
#[derive(Clone, Copy, Debug, PartialEq, Eq, Structural)]
pub enum Action {
    Projectile(i64),
}

/// A square of side `size` centred at `(x, y)`, with hit points.
#[derive(Clone, Copy, Debug, PartialEq, Eq, Structural)]
pub struct Object {
    pub name: ObjectName,
    pub x: i64,
    pub y: i64,
    pub size: i64,
    pub action: Action,
    pub recharge: i64,
    pub hp: i64,
    pub max_hp: i64,
}

/// The square of the distance between two objects' centres.
pub open spec fn distance_squared(a: Object, b: Object) -> int {
    (a.x - b.x) * (a.x - b.x) + (a.y - b.y) * (a.y - b.y)
}

/// Twice the reach of a projectile of the given magnitude: one and a half
/// times the magnitude and 19.5 units.
pub open spec fn reach_doubled(magnitude: i64) -> int {
    3 * magnitude + REACH_BASE_DOUBLED
}

/// Whether `target` is within reach of a projectile that `caster` sends.
pub open spec fn in_reach(caster: Object, magnitude: i64, target: Object) -> bool {
    &&& reach_doubled(magnitude) >= 0
    &&& 4 * distance_squared(caster, target) <= reach_doubled(magnitude) * reach_doubled(magnitude)
}

/// Whether `targets[i]` is the one that the projectile hits: within reach,
/// nearer than every target within reach before it and no farther than any
/// after it.
pub open spec fn is_hit(caster: Object, magnitude: i64, targets: Seq<Object>, i: int) -> bool {
    &&& 0 <= i < targets.len()
    &&& in_reach(caster, magnitude, targets[i])
    &&& forall|j: int|
        0 <= j < targets.len() && #[trigger] in_reach(caster, magnitude, targets[j]) ==> {
            ||| distance_squared(caster, targets[i]) < distance_squared(caster, targets[j])
            ||| (distance_squared(caster, targets[i]) == distance_squared(caster, targets[j]) && i
                <= j)
        }
}

/// A projectile hits at most one target.
pub proof fn lemma_hit_unique(caster: Object, magnitude: i64, targets: Seq<Object>, i: int, j: int)
    requires
        is_hit(caster, magnitude, targets, i),
        is_hit(caster, magnitude, targets, j),
    ensures
        i == j,
{
    assert(in_reach(caster, magnitude, targets[i]));
    assert(in_reach(caster, magnitude, targets[j]));
}

/// `target` with `magnitude` taken from its hit points.
pub open spec fn damaged(target: Object, magnitude: i64) -> Object {
    Object { hp: (target.hp - magnitude) as i64, ..target }
}

/// Whether twice a coordinate pair lies strictly inside `b`'s square.
pub open spec fn corner_inside(doubled_x: int, doubled_y: int, b: Object) -> bool {
    &&& 2 * b.x - b.size < doubled_x < 2 * b.x + b.size
    &&& 2 * b.y - b.size < doubled_y < 2 * b.y + b.size
}

/// The pixel index of a doubled coordinate in thousandths: whole units,
/// rounded towards zero, and zero for what lies left of or above the origin.
pub open spec fn pixel_floor(doubled: int) -> int {
    if doubled <= 0 {
        0
    } else {
        doubled / 2000
    }
}

/// The colour that an object of the given name is drawn in.
pub open spec fn color_of(name: ObjectName) -> [u8; 3] {
    match name {
        ObjectName::Player => rgb(0, 0, 0),
        ObjectName::Enemy(_) => rgb(255, 30, 30),
    }
}

/// Whether `r` is the largest number whose square is at most `n`.
pub open spec fn is_floor_sqrt(n: nat, r: nat) -> bool {
    r * r <= n < (r + 1) * (r + 1)
}

/// The integer square root: the largest number whose square is at most `n`.
pub open spec fn floor_sqrt(n: nat) -> nat {
    choose|r: nat| is_floor_sqrt(n, r)
}

/// By how many tenths the distance to the player is stretched before an
/// enemy's step is divided by it: a weaker enemy closes in faster.
pub open spec fn pace_tenths(name: ObjectName) -> int {
    match name {
        ObjectName::Enemy(EnemyType::Weak) => 18,
        ObjectName::Enemy(EnemyType::Medium) => 15,
        ObjectName::Enemy(EnemyType::Strong) => 12,
        ObjectName::Player => 10,
    }
}

/// The distance between two objects' centres, rounded down to a thousandth
/// and at least one thousandth.
pub open spec fn guarded_distance(a: Object, b: Object) -> int {
    if floor_sqrt(distance_squared(a, b) as nat) == 0 {
        1
    } else {
        floor_sqrt(distance_squared(a, b) as nat) as int
    }
}

/// The quotient of `n` by a positive `d`, rounded towards zero.
pub open spec fn quotient_toward_zero(n: int, d: int) -> int {
    if n >= 0 {
        n / d
    } else {
        -((-n) / d)
    }
}

/// How far an enemy moves along one axis in one step, given how far the
/// player is along that axis: the offset over the stretched distance.
pub open spec fn pursuit_step(offset: int, enemy: Object, player: Object) -> int {
    quotient_toward_zero(
        offset * 10_000,
        guarded_distance(player, enemy) * pace_tenths(enemy.name),
    )
}

/// The square root is unique: a number whose square is at most `n` and whose
/// successor's square is more is the integer square root of `n`.
pub proof fn lemma_floor_sqrt_unique(n: nat, r: nat)
    requires
        r * r <= n < (r + 1) * (r + 1),
    ensures
        floor_sqrt(n) == r,
{
    let s = floor_sqrt(n);
    assert(is_floor_sqrt(n, r));
    assert(is_floor_sqrt(n, s));
    if s < r {
        assert((s + 1) * (s + 1) <= r * r) by (nonlinear_arith)
            requires
                s + 1 <= r,
        ;
    }
    if r < s {
        assert((r + 1) * (r + 1) <= s * s) by (nonlinear_arith)
            requires
                r + 1 <= s,
        ;
    }
}

/// An enemy after one step towards the player.
pub open spec fn stepped(enemy: Object, player: Object) -> Object {
    Object {
        x: (enemy.x + pursuit_step(player.x - enemy.x, enemy, player)) as i64,
        y: (enemy.y + pursuit_step(player.y - enemy.y, enemy, player)) as i64,
        ..enemy
    }
}

/// Whether an object still has hit points.
pub open spec fn alive() -> spec_fn(Object) -> bool {
    |o: Object| o.hp > 0
}

impl Object {
    /// Whether the position, the size and the magnitude are within the range
    /// that the rules compute with.
    pub open spec fn in_world(&self) -> bool {
        &&& -WORLD_MAX <= self.x <= WORLD_MAX
        &&& -WORLD_MAX <= self.y <= WORLD_MAX
        &&& -WORLD_MAX <= self.size <= WORLD_MAX
        &&& -WORLD_MAX <= self.magnitude() <= WORLD_MAX
    }

    /// The magnitude of the object's action.
    pub open spec fn magnitude(&self) -> i64 {
        match self.action {
            Action::Projectile(magnitude) => magnitude,
        }
    }

    /// Whether a corner of this object's square lies strictly inside
    /// `other`'s square.
    pub open spec fn collides(&self, other: Object) -> bool {
        ||| corner_inside(2 * self.x - self.size, 2 * self.y - self.size, other)
        ||| corner_inside(2 * self.x + self.size, 2 * self.y - self.size, other)
        ||| corner_inside(2 * self.x - self.size, 2 * self.y + self.size, other)
        ||| corner_inside(2 * self.x + self.size, 2 * self.y + self.size, other)
    }

    /// Whether the object is drawn on pixel `(a, b)`.
    pub open spec fn paints(&self, a: int, b: int) -> bool {
        &&& pixel_floor(2 * self.x - self.size) <= a < pixel_floor(2 * self.x + self.size)
        &&& pixel_floor(2 * self.y - self.size) <= b < pixel_floor(2 * self.y + self.size)
    }

    /// Whether the position, the size and the magnitude are within the range
    /// that the rules compute with.
    pub fn is_in_world(&self) -> (result: bool)
        ensures
            result == self.in_world(),
    {
        let magnitude: i64 = match self.action {
            Action::Projectile(magnitude) => magnitude,
        };
        -WORLD_MAX <= self.x && self.x <= WORLD_MAX && -WORLD_MAX <= self.y && self.y <= WORLD_MAX
            && -WORLD_MAX <= self.size && self.size <= WORLD_MAX && -WORLD_MAX <= magnitude
            && magnitude <= WORLD_MAX
    }

    /// An object at full hit points with no recharge pending.
    pub fn new(name: ObjectName, x: i64, y: i64, size: i64, max_hp: i64, action: Action) -> (result:
        Object)
        ensures
            result == (Object { name, x, y, size, action, recharge: 0, hp: max_hp, max_hp }),
    {
        Object { name, x, y, size, action, recharge: 0, hp: max_hp, max_hp }
    }

    /// Moves the object up by `amount`: towards smaller `y`.
    pub fn up(&mut self, amount: i64) -> (result: &mut Self)
        requires
            i64::MIN <= old(self).y - amount <= i64::MAX,
        ensures
            *result == (Object { y: (old(self).y - amount) as i64, ..*old(self) }),
            *final(self) == *final(result),
    {
        self.y = self.y - amount;
        self
    }

    /// Moves the object down by `amount`: towards larger `y`.
    pub fn down(&mut self, amount: i64) -> (result: &mut Self)
        requires
            i64::MIN <= old(self).y + amount <= i64::MAX,
        ensures
            *result == (Object { y: (old(self).y + amount) as i64, ..*old(self) }),
            *final(self) == *final(result),
    {
        self.y = self.y + amount;
        self
    }

    /// Moves the object left by `amount`: towards smaller `x`.
    pub fn left(&mut self, amount: i64) -> (result: &mut Self)
        requires
            i64::MIN <= old(self).x - amount <= i64::MAX,
        ensures
            *result == (Object { x: (old(self).x - amount) as i64, ..*old(self) }),
            *final(self) == *final(result),
    {
        self.x = self.x - amount;
        self
    }

    /// Moves the object right by `amount`: towards larger `x`.
    pub fn right(&mut self, amount: i64) -> (result: &mut Self)
        requires
            i64::MIN <= old(self).x + amount <= i64::MAX,
        ensures
            *result == (Object { x: (old(self).x + amount) as i64, ..*old(self) }),
            *final(self) == *final(result),
    {
        self.x = self.x + amount;
        self
    }

    /// Whether a corner of this object's square lies strictly inside
    /// `object`'s square. Overlaps in which no corner of this square is
    /// inside the other are not found.
    pub fn collides_with(&self, object: Object) -> (result: bool)
        ensures
            result == self.collides(object),
    {
        let low_x: i128 = 2 * (self.x as i128) - (self.size as i128);
        let high_x: i128 = 2 * (self.x as i128) + (self.size as i128);
        let low_y: i128 = 2 * (self.y as i128) - (self.size as i128);
        let high_y: i128 = 2 * (self.y as i128) + (self.size as i128);
        encloses(&object, low_x, low_y) || encloses(&object, high_x, low_y) || encloses(
            &object,
            low_x,
            high_y,
        ) || encloses(&object, high_x, high_y)
    }

    /// The object drawn on a transparent overlay of the given dimensions:
    /// its square in its colour, as far as it lies on the overlay.
    pub fn as_overlay(&self, buffer_width: usize, buffer_height: usize) -> (result: Overlay)
        requires
            buffer_width * buffer_height <= usize::MAX,
        ensures
            result.wf(),
            result.width == buffer_width,
            result.height == buffer_height,
            result.opacity == OPACITY_FULL,
            result.blend is None,
            forall|a: int, b: int|
                result.in_bounds(a, b) ==> #[trigger] result.cell(a, b) == (if self.paints(a, b) {
                    Some(color_of(self.name))
                } else {
                    None
                }),
    {
        let mut overlay = Overlay::new(buffer_width, buffer_height);
        let color: [u8; 3] = match self.name {
            ObjectName::Player => [0, 0, 0],
            ObjectName::Enemy(_) => [255, 30, 30],
        };
        let x: i128 = 2 * (self.x as i128);
        let y: i128 = 2 * (self.y as i128);
        let size: i128 = self.size as i128;
        let first_column: usize = pixel_within(x - size, buffer_width);
        let end_column: usize = pixel_within(x + size, buffer_width);
        let first_row: usize = pixel_within(y - size, buffer_height);
        let end_row: usize = pixel_within(y + size, buffer_height);
        proof {
            assert forall|a: int, b: int| overlay.in_bounds(a, b) implies #[trigger] overlay.cell(
                a,
                b,
            ) is None by {
                crate::overlay::lemma_cell_index(
                    buffer_width as int,
                    buffer_height as int,
                    a,
                    b,
                );
            }
        }
        let mut a: usize = first_column;
        while a < end_column
            invariant
                overlay.wf(),
                overlay.width == buffer_width,
                overlay.height == buffer_height,
                overlay.opacity == OPACITY_FULL,
                overlay.blend is None,
                color == color_of(self.name),
                first_column == least(pixel_floor(2 * self.x - self.size), buffer_width as int),
                end_column == least(pixel_floor(2 * self.x + self.size), buffer_width as int),
                first_row == least(pixel_floor(2 * self.y - self.size), buffer_height as int),
                end_row == least(pixel_floor(2 * self.y + self.size), buffer_height as int),
                first_column <= a || end_column <= a,
                forall|c: int, d: int|
                    overlay.in_bounds(c, d) ==> #[trigger] overlay.cell(c, d) == (if self.paints(c, d)
                        && c < a {
                        Some(color)
                    } else {
                        None
                    }),
            decreases end_column - a,
        {
            let mut b: usize = first_row;
            while b < end_row
                invariant
                    overlay.wf(),
                    overlay.width == buffer_width,
                    overlay.height == buffer_height,
                    overlay.opacity == OPACITY_FULL,
                    overlay.blend is None,
                    color == color_of(self.name),
                    first_column == least(pixel_floor(2 * self.x - self.size), buffer_width as int),
                    end_column == least(pixel_floor(2 * self.x + self.size), buffer_width as int),
                    first_row == least(pixel_floor(2 * self.y - self.size), buffer_height as int),
                    end_row == least(pixel_floor(2 * self.y + self.size), buffer_height as int),
                    first_column <= a < end_column,
                    first_row <= b || end_row <= b,
                    forall|c: int, d: int|
                        overlay.in_bounds(c, d) ==> #[trigger] overlay.cell(c, d) == (if self.paints(
                            c,
                            d,
                        ) && (c < a || (c == a && d < b)) {
                            Some(color)
                        } else {
                            None
                        }),
                decreases end_row - b,
            {
                let _ = overlay.set_pixel(a, b, &color);
                b += 1;
            }
            a += 1;
        }
        overlay
    }

    /// Moves an enemy one step towards the player. Along each axis the step
    /// is the offset to the player over the distance to the player, which
    /// counts as at least one thousandth and is stretched by the enemy's
    /// pace.
    pub fn step_enemy_ai(&mut self, player: &Object)
        requires
            old(self).in_world(),
            player.in_world(),
        ensures
            *final(self) == stepped(*old(self), *player),
            i64::MIN <= old(self).x + pursuit_step(player.x - old(self).x, *old(self), *player)
                <= i64::MAX,
            i64::MIN <= old(self).y + pursuit_step(player.y - old(self).y, *old(self), *player)
                <= i64::MAX,
    {
        let squared: i128 = squared_distance(player, self);
        let root: u128 = integer_sqrt(squared as u128);
        let distance: u128 = if root == 0 {
            1
        } else {
            root
        };
        let pace: u128 = match self.name {
            ObjectName::Enemy(EnemyType::Weak) => 18,
            ObjectName::Enemy(EnemyType::Medium) => 15,
            ObjectName::Enemy(EnemyType::Strong) => 12,
            ObjectName::Player => 10,
        };
        let divisor: u128 = distance * pace;
        let step_x: i64 = step_along(player.x as i128 - self.x as i128, divisor);
        let step_y: i64 = step_along(player.y as i128 - self.y as i128, divisor);
        self.x = self.x + step_x;
        self.y = self.y + step_y;
    }

    /// The target of this object's projectile: the index of the nearest of
    /// `objects` within reach, the first of them where several are equally
    /// near, or `None` where no object is within reach.
    pub fn find_target(&self, objects: &Vec<Object>) -> (hit: Option<usize>)
        requires
            self.in_world(),
            forall|i: int| 0 <= i < objects@.len() ==> (#[trigger] objects@[i]).in_world(),
        ensures
            hit is Some <==> exists|i: int| is_hit(*self, self.magnitude(), objects@, i),
            hit is Some ==> is_hit(*self, self.magnitude(), objects@, hit->Some_0 as int),
            forall|i: int|
                0 <= i < objects@.len() ==> (#[trigger] is_hit(*self, self.magnitude(), objects@, i)
                    <==> hit == Some(i as usize)),
    {
        let magnitude: i64 = match self.action {
            Action::Projectile(magnitude) => magnitude,
        };
        let mut closest: Option<usize> = None;
        let mut closest_distance: i128 = 0;
        let mut i: usize = 0;
        while i < objects.len()
            invariant
                self.in_world(),
                magnitude == self.magnitude(),
                forall|k: int| 0 <= k < objects@.len() ==> (#[trigger] objects@[k]).in_world(),
                i <= objects@.len(),
                closest is Some ==> closest->Some_0 < i && closest_distance == distance_squared(
                    *self,
                    objects@[closest->Some_0 as int],
                ),
                closest is Some ==> is_hit(
                    *self,
                    magnitude,
                    objects@.take(i as int),
                    closest->Some_0 as int,
                ),
                closest is None ==> forall|k: int|
                    0 <= k < i ==> !#[trigger] in_reach(*self, magnitude, objects@[k]),
            decreases objects@.len() - i,
        {
            let candidate: Object = objects[i];
            let distance: i128 = squared_distance(self, &candidate);
            let ghost seen = objects@.take(i as int);
            let ghost next = objects@.take(i + 1);
            proof {
                assert forall|k: int| 0 <= k < i implies #[trigger] next[k] == seen[k] by {}
                assert(next[i as int] == candidate);
            }
            if within_reach(magnitude, distance) {
                match closest {
                    Some(_) => {
                        if distance < closest_distance {
                            closest = Some(i);
                            closest_distance = distance;
                        }
                    },
                    None => {
                        closest = Some(i);
                        closest_distance = distance;
                    },
                }
            }
            proof {
                if closest is Some {
                    let c = closest->Some_0 as int;
                    assert forall|j: int|
                        0 <= j < next.len() && #[trigger] in_reach(
                            *self,
                            magnitude,
                            next[j],
                        ) implies (distance_squared(*self, next[c]) < distance_squared(*self, next[j])
                        || (distance_squared(*self, next[c]) == distance_squared(*self, next[j]) && c
                        <= j)) by {
                        if j < i {
                            assert(in_reach(*self, magnitude, seen[j]));
                        }
                    }
                }
            }
            i += 1;
        }
        proof {
            assert(objects@.take(i as int) =~= objects@);
        }
        match closest {
            Some(index) => {
                assert forall|k: int| 0 <= k < objects@.len() implies (#[trigger] is_hit(
                    *self,
                    magnitude,
                    objects@,
                    k,
                ) <==> closest == Some(k as usize)) by {
                    if is_hit(*self, magnitude, objects@, k) {
                        lemma_hit_unique(*self, magnitude, objects@, k, index as int);
                    }
                }
            },
            None => {
                assert forall|k: int| !is_hit(*self, magnitude, objects@, k) by {}
            },
        }
        closest
    }

    /// Sends this object's projectile: its target among `objects` loses the
    /// magnitude in hit points. Nothing else changes, and nothing at all
    /// where no object is within reach.
    pub fn use_ability(&mut self, objects: &mut Vec<Object>) -> (result: &mut Self)
        requires
            playable(*old(self), old(objects)@),
        ensures
            *result == *old(self),
            *final(self) == *final(result),
            final(objects)@.len() == old(objects)@.len(),
            forall|i: int|
                0 <= i < old(objects)@.len() ==> #[trigger] final(objects)@[i] == (if is_hit(
                    *old(self),
                    old(self).magnitude(),
                    old(objects)@,
                    i,
                ) {
                    damaged(old(objects)@[i], old(self).magnitude())
                } else {
                    old(objects)@[i]
                }),
    {
        let magnitude: i64 = match self.action {
            Action::Projectile(magnitude) => magnitude,
        };
        match self.find_target(objects) {
            Some(index) => {
                let target: Object = objects[index];
                objects.set(index, Object { hp: target.hp - magnitude, ..target });
            },
            None => {},
        }
        self
    }
}

/// Whether twice a coordinate pair lies strictly inside `object`'s square.
fn encloses(object: &Object, doubled_x: i128, doubled_y: i128) -> (result: bool)
    ensures
        result == corner_inside(doubled_x as int, doubled_y as int, *object),
{
    let low_x: i128 = 2 * (object.x as i128) - (object.size as i128);
    let high_x: i128 = 2 * (object.x as i128) + (object.size as i128);
    let low_y: i128 = 2 * (object.y as i128) - (object.size as i128);
    let high_y: i128 = 2 * (object.y as i128) + (object.size as i128);
    low_x < doubled_x && doubled_x < high_x && low_y < doubled_y && doubled_y < high_y
}

/// The smaller of two numbers.
pub open spec fn least(a: int, b: int) -> int {
    if a < b {
        a
    } else {
        b
    }
}

/// The pixel index of a doubled coordinate, held within `limit`.
fn pixel_within(doubled: i128, limit: usize) -> (result: usize)
    ensures
        result == least(pixel_floor(doubled as int), limit as int),
{
    if doubled <= 0 {
        0
    } else {
        let pixel: u128 = (doubled as u128) / 2000;
        if pixel < limit as u128 {
            pixel as usize
        } else {
            limit
        }
    }
}

/// The integer square root of a squared distance.
pub fn integer_sqrt(n: u128) -> (result: u128)
    requires
        n <= 8 * WORLD_MAX * WORLD_MAX,
    ensures
        result == floor_sqrt(n as nat),
        result * result <= n < (result + 1) * (result + 1),
        result <= 4 * WORLD_MAX,
{
    let mut low: u128 = 0;
    let mut high: u128 = 4_398_046_511_104;
    assert(n < high * high) by (nonlinear_arith)
        requires
            n <= 8 * WORLD_MAX * WORLD_MAX,
            high == 4 * WORLD_MAX,
    ;
    assert(low * low <= n) by (nonlinear_arith)
        requires
            low == 0,
            n >= 0,
    ;
    while high - low > 1
        invariant
            low < high <= 4 * WORLD_MAX,
            low * low <= n < high * high,
        decreases high - low,
    {
        let middle: u128 = low + (high - low) / 2;
        assert(middle * middle <= 16 * WORLD_MAX * WORLD_MAX) by (nonlinear_arith)
            requires
                0 <= middle <= 4 * WORLD_MAX,
        ;
        if middle * middle <= n {
            low = middle;
        } else {
            high = middle;
        }
    }
    proof {
        lemma_floor_sqrt_unique(n as nat, low as nat);
    }
    low
}

/// An offset times ten thousand over a divisor, rounded towards zero.
fn step_along(offset: i128, divisor: u128) -> (result: i64)
    requires
        -2 * WORLD_MAX <= offset <= 2 * WORLD_MAX,
        0 < divisor,
    ensures
        result == quotient_toward_zero(offset * 10_000, divisor as int),
        -20_000 * WORLD_MAX <= result <= 20_000 * WORLD_MAX,
{
    if offset >= 0 {
        let scaled: u128 = (offset as u128) * 10_000;
        assert(scaled as int / divisor as int <= scaled) by (nonlinear_arith)
            requires
                0 <= scaled,
                0 < divisor,
        ;
        (scaled / divisor) as i64
    } else {
        let scaled: u128 = ((-offset) as u128) * 10_000;
        assert(scaled as int / divisor as int <= scaled) by (nonlinear_arith)
            requires
                0 <= scaled,
                0 < divisor,
        ;
        -((scaled / divisor) as i64)
    }
}

/// Whether the rules can compute with a scene: the player and every enemy
/// are within the world, and no enemy's hit points are so low that the
/// player's projectile would take them below what a number can hold.
pub open spec fn playable(player: Object, enemies: Seq<Object>) -> bool {
    &&& player.in_world()
    &&& forall|i: int| 0 <= i < enemies.len() ==> (#[trigger] enemies[i]).in_world()
    &&& forall|i: int|
        0 <= i < enemies.len() ==> i64::MIN <= (#[trigger] enemies[i]).hp - player.magnitude()
            <= i64::MAX
}

/// Whether the rules can compute with a scene.
pub fn is_playable(player: &Object, enemies: &Vec<Object>) -> (result: bool)
    ensures
        result == playable(*player, enemies@),
{
    if !player.is_in_world() {
        return false;
    }
    let magnitude: i64 = match player.action {
        Action::Projectile(magnitude) => magnitude,
    };
    let mut i: usize = 0;
    while i < enemies.len()
        invariant
            i <= enemies@.len(),
            player.in_world(),
            magnitude == player.magnitude(),
            forall|k: int| 0 <= k < i ==> (#[trigger] enemies@[k]).in_world(),
            forall|k: int|
                0 <= k < i ==> i64::MIN <= (#[trigger] enemies@[k]).hp - magnitude <= i64::MAX,
        decreases enemies@.len() - i,
    {
        let enemy: Object = enemies[i];
        let left: i128 = (enemy.hp as i128) - (magnitude as i128);
        if !enemy.is_in_world() || left < i64::MIN as i128 || left > i64::MAX as i128 {
            return false;
        }
        i += 1;
    }
    true
}

/// Whether the player collides with any of the enemies: the game is then
/// over.
pub fn game_over(player: &Object, enemies: &Vec<Object>) -> (result: bool)
    ensures
        result == exists|i: int| 0 <= i < enemies@.len() && player.collides(#[trigger] enemies@[i]),
{
    let mut i: usize = 0;
    while i < enemies.len()
        invariant
            i <= enemies@.len(),
            forall|k: int| 0 <= k < i ==> !player.collides(#[trigger] enemies@[k]),
        decreases enemies@.len() - i,
    {
        if player.collides_with(enemies[i]) {
            return true;
        }
        i += 1;
    }
    false
}

/// The square of the distance between two objects' centres.
pub fn squared_distance(a: &Object, b: &Object) -> (result: i128)
    requires
        a.in_world(),
        b.in_world(),
    ensures
        result == distance_squared(*a, *b),
        0 <= result <= 8 * WORLD_MAX * WORLD_MAX,
{
    let dx: i128 = (a.x as i128) - (b.x as i128);
    let dy: i128 = (a.y as i128) - (b.y as i128);
    assert(0 <= dx * dx <= 4 * WORLD_MAX * WORLD_MAX) by (nonlinear_arith)
        requires
            -2 * WORLD_MAX <= dx <= 2 * WORLD_MAX,
    ;
    assert(0 <= dy * dy <= 4 * WORLD_MAX * WORLD_MAX) by (nonlinear_arith)
        requires
            -2 * WORLD_MAX <= dy <= 2 * WORLD_MAX,
    ;
    dx * dx + dy * dy
}

/// Whether a squared distance is within the reach of a projectile of the
/// given magnitude.
fn within_reach(magnitude: i64, distance: i128) -> (result: bool)
    requires
        -WORLD_MAX <= magnitude <= WORLD_MAX,
        0 <= distance <= 8 * WORLD_MAX * WORLD_MAX,
    ensures
        result == (reach_doubled(magnitude) >= 0 && 4 * distance <= reach_doubled(magnitude)
            * reach_doubled(magnitude)),
{
    let reach: i128 = 3 * (magnitude as i128) + (REACH_BASE_DOUBLED as i128);
    if reach < 0 {
        return false;
    }
    assert(0 <= reach * reach <= 16 * WORLD_MAX * WORLD_MAX) by (nonlinear_arith)
        requires
            0 <= reach <= 4 * WORLD_MAX,
    ;
    4 * distance <= reach * reach
}

/// Removes every enemy without hit points and keeps the others in order.
pub fn purge_dead(enemies: &mut Vec<Object>)
    ensures
        final(enemies)@ == old(enemies)@.filter(alive()),
{
    let mut kept: Vec<Object> = Vec::new();
    let mut i: usize = 0;
    while i < enemies.len()
        invariant
            enemies@ == old(enemies)@,
            i <= enemies@.len(),
            kept@ == enemies@.take(i as int).filter(alive()),
        decreases enemies@.len() - i,
    {
        let enemy: Object = enemies[i];
        proof {
            reveal(Seq::filter);
            assert(enemies@.take(i + 1).drop_last() =~= enemies@.take(i as int));
        }
        if enemy.hp > 0 {
            kept.push(enemy);
        }
        i += 1;
    }
    proof {
        assert(enemies@.take(i as int) =~= enemies@);
    }
    *enemies = kept;
}

/// After a purge no enemy is without hit points, and every enemy that had
/// hit points is still there.
pub proof fn lemma_purge_leaves_the_living(enemies: Seq<Object>)
    ensures
        forall|k: int|
            0 <= k < enemies.filter(alive()).len() ==> (#[trigger] enemies.filter(alive())[k]).hp
                > 0,
        forall|e: Object| e.hp <= 0 ==> !enemies.filter(alive()).contains(e),
        forall|i: int|
            0 <= i < enemies.len() && enemies[i].hp > 0 ==> enemies.filter(alive()).contains(
                #[trigger] enemies[i],
            ),
        enemies.filter(alive()).len() <= enemies.len(),
{
    broadcast use vstd::seq_lib::group_filter_ensures;

    assert forall|e: Object| e.hp <= 0 implies !enemies.filter(alive()).contains(e) by {
        if enemies.filter(alive()).contains(e) {
            let k = choose|k: int|
                0 <= k < enemies.filter(alive()).len() && enemies.filter(alive())[k] == e;
            assert(alive()(enemies.filter(alive())[k]));
        }
    }
}

/// An enemy that a projectile leaves without hit points is gone after the
/// next purge, and the purge removes nothing that still has hit points.
pub proof fn lemma_killed_is_purged(caster: Object, targets: Seq<Object>, i: int)
    requires
        is_hit(caster, caster.magnitude(), targets, i),
        i64::MIN <= targets[i].hp - caster.magnitude() <= 0,
    ensures
        !targets.update(i, damaged(targets[i], caster.magnitude())).filter(alive()).contains(
            damaged(targets[i], caster.magnitude()),
        ),
        forall|j: int|
            0 <= j < targets.len() && j != i && targets[j].hp > 0 ==> targets.update(
                i,
                damaged(targets[i], caster.magnitude()),
            ).filter(alive()).contains(#[trigger] targets[j]),
{
    let after = targets.update(i, damaged(targets[i], caster.magnitude()));
    lemma_purge_leaves_the_living(after);
    assert forall|j: int| 0 <= j < targets.len() && j != i && targets[j].hp > 0 implies after.filter(
        alive(),
    ).contains(#[trigger] targets[j]) by {
        assert(after[j] == targets[j]);
    }
}

} // verus!
