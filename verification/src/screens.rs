//! Game and menu screens: runtime-swappable units of logic that feed
//! commands to the display. The engine dispatches over a tagged union of
//! the known screen kinds.

use vstd::prelude::*;

use crate::display::{DrawCall, LogicCall};
use crate::input::InputState;
use crate::object::Object;
use crate::shared::{nudge_spec, Point, Size, FP_ONE};
use crate::sprite::Sprite;

verus! {

/// The menu screen: shows two sprite objects through a camera and waits
/// for the player to start the game or quit.
pub struct MainMenu {}

/// The snake's food: a board cell and whether it has been eaten.
pub struct Apple {
    pub coord: Point,
    pub eaten: bool,
}

/// The snake game screen. The body is an ordered arena of segment
/// coordinates, newest (just behind the head) first.
pub struct Snake {
    pub dir: Point,
    pub next_dir: Point,
    pub coord: Point,
    pub next_coord: Point,
    pub last_tail: Point,
    pub segments: Vec<Point>,
    pub apple: Apple,
    pub score: u16,
    pub frame_counter: u8,
}

/// A screen: one of the known game or menu modes, dispatched as a tagged
/// union.
pub enum Screen {
    Menu(MainMenu),
    SnakeGame(Snake),
}

/// Logic commands the menu enqueues every update: a camera-relative move
/// of the foreground object, plus a camera switch while the east button
/// is held.
pub open spec fn menu_update_calls(input: InputState) -> Seq<LogicCall> {
    let base = seq![LogicCall::MoveObject(1usize, input.direction, 327680i64)];
    if input.east {
        base + seq![
            LogicCall::SetOutputCamera(None),
            LogicCall::SetCamera(
                1usize,
                Size { width: 512usize, height: 512usize },
                Point { x: 0i64, y: 0i64 },
            ),
        ]
    } else {
        base
    }
}

/// Logic commands the snake enqueues every update: erase the old tail,
/// draw the head, draw the apple.
pub open spec fn snake_update_calls(s: Snake) -> Seq<LogicCall> {
    seq![
        LogicCall::PixelAt(s.last_tail, [248u8, 185u8, 212u8, 255u8]),
        LogicCall::PixelAt(s.coord, [175u8, 105u8, 238u8, 255u8]),
        LogicCall::PixelAt(s.apple.coord, [167u8, 199u8, 231u8, 255u8]),
    ]
}

/// Logic commands the snake enqueues when its screen is initialized.
pub open spec fn snake_init_calls(s: Snake) -> Seq<LogicCall> {
    seq![
        LogicCall::PixelAt(s.coord, [175u8, 105u8, 238u8, 255u8]),
        LogicCall::PixelAt(s.apple.coord, [167u8, 199u8, 231u8, 255u8]),
        LogicCall::FillRange(
            Point { x: 0i64, y: 0i64 },
            Point { x: 1376256i64, y: 1376256i64 },
            [248u8, 185u8, 212u8, 255u8],
        ),
        LogicCall::Rectangle(
            Point { x: 0i64, y: 0i64 },
            Point { x: 1376256i64, y: 1376256i64 },
            [0u8, 0u8, 255u8, 127u8],
        ),
        LogicCall::SetOutputCamera(None),
        LogicCall::SetDisplaySize(Size { width: 22usize, height: 22usize }),
    ]
}

/// The next direction after reading input: each cardinal flag overrides
/// in turn, unless it would reverse the current direction.
pub open spec fn snake_next_dir(s: Snake, input: InputState) -> Point {
    let after_up = if input.up && s.dir != (Point { x: 0i64, y: 65536i64 }) {
        Point { x: 0i64, y: -65536i64 }
    } else {
        s.next_dir
    };
    let after_down = if input.down && s.dir != (Point { x: 0i64, y: -65536i64 }) {
        Point { x: 0i64, y: 65536i64 }
    } else {
        after_up
    };
    let after_left = if input.left && s.dir != (Point { x: 65536i64, y: 0i64 }) {
        Point { x: -65536i64, y: 0i64 }
    } else {
        after_down
    };
    if input.right && s.dir != (Point { x: -65536i64, y: 0i64 }) {
        Point { x: 65536i64, y: 0i64 }
    } else {
        after_left
    }
}

/// True when a point coincides with the snake's head or any body
/// segment.
pub open spec fn snake_collides(s: Snake, p: Point) -> bool {
    s.coord == p || exists|i: int| 0 <= i < s.segments@.len() && s.segments@[i] == p
}

/// True when a point lies on or beyond the board's wall.
pub open spec fn snake_hits_wall(p: Point) -> bool {
    p.x > 20 * FP_ONE || p.x == 0 || p.y > 20 * FP_ONE || p.y == 0
}

/// True when this update ends the game: on a movement frame, the next
/// head position hits the body or the wall; a head chasing its own tail
/// cell is exempt.
pub open spec fn snake_game_over(s: Snake, input: InputState) -> bool {
    s.frame_counter == 3 && {
        let nd = snake_next_dir(s, input);
        let nc = nudge_spec(s.coord, nd, FP_ONE as int);
        (snake_collides(s, nc) || snake_hits_wall(nc)) && s.coord != s.last_tail
    }
}

/// The state a freshly spawned snake starts in: centered, heading right,
/// no body, an uneaten apple on a free board cell.
pub open spec fn snake_spawned(s: Snake) -> bool {
    &&& s.dir == (Point { x: 65536i64, y: 0i64 })
    &&& s.next_dir == (Point { x: 65536i64, y: 0i64 })
    &&& s.coord == (Point { x: 655360i64, y: 655360i64 })
    &&& s.next_coord == (Point { x: 720896i64, y: 655360i64 })
    &&& s.last_tail == (Point { x: 589824i64, y: 655360i64 })
    &&& s.segments@.len() == 0
    &&& s.apple.eaten == false
    &&& apple_on_board(s.apple.coord)
    &&& !snake_collides(s, s.apple.coord)
    &&& s.score == 0
    &&& s.frame_counter == 0
}

/// An apple always sits exactly on a whole board cell inside the walls.
pub open spec fn apple_on_board(p: Point) -> bool {
    &&& FP_ONE <= p.x <= 20 * FP_ONE
    &&& FP_ONE <= p.y <= 20 * FP_ONE
    &&& p.x % FP_ONE == 0
    &&& p.y % FP_ONE == 0
}

/// Draw commands a screen emits per frame.
pub open spec fn draw_calls_spec(s: Screen) -> Seq<DrawCall> {
    match s {
        Screen::Menu(_) => seq![DrawCall::DrawObject(0usize), DrawCall::DrawObject(1usize)],
        Screen::SnakeGame(_) => seq![DrawCall::DrawPixels],
    }
}

/// Logic commands a screen emits per update.
pub open spec fn update_calls(s: Screen, input: InputState) -> Seq<LogicCall> {
    match s {
        Screen::Menu(_) => menu_update_calls(input),
        Screen::SnakeGame(sn) => snake_update_calls(sn),
    }
}

/// Whether a screen's update asks the engine to stop.
pub open spec fn update_kill(s: Screen, input: InputState) -> bool {
    match s {
        Screen::Menu(_) => !input.start && input.select,
        Screen::SnakeGame(_) => false,
    }
}

/// True when the two screens are the same mode of the engine.
pub open spec fn same_screen_kind(a: Screen, b: Screen) -> bool {
    match (a, b) {
        (Screen::Menu(_), Screen::Menu(_)) => true,
        (Screen::SnakeGame(_), Screen::SnakeGame(_)) => true,
        _ => false,
    }
}

/// Whether a screen's update hands over to another screen.
pub open spec fn update_transitions(s: Screen, input: InputState) -> bool {
    match s {
        Screen::Menu(_) => input.start,
        Screen::SnakeGame(sn) => snake_game_over(sn, input),
    }
}

/// The screen a transition hands over to: the menu opens a freshly
/// spawned snake game, and a finished snake game returns the menu.
pub open spec fn transition_target(from: Screen, to: Screen) -> bool {
    match from {
        Screen::Menu(_) => to matches Screen::SnakeGame(sn) && snake_spawned(sn),
        Screen::SnakeGame(_) => to == Screen::Menu(MainMenu {  }),
    }
}

/// Whether an update kills the loop depends only on the screen's mode.
pub proof fn lemma_update_kill_by_kind(a: Screen, b: Screen, input: InputState)
    requires
        same_screen_kind(a, b),
    ensures
        update_kill(a, input) == update_kill(b, input),
{
}

/// What a screen draws each frame depends only on the screen's mode.
pub proof fn lemma_draw_calls_by_kind(a: Screen, b: Screen)
    requires
        same_screen_kind(a, b),
    ensures
        draw_calls_spec(a) == draw_calls_spec(b),
{
}

/// Relies on rand::random_range: returns a value uniformly sampled from
/// the inclusive range; panics only on an empty range, which the bounds
/// rule out.
#[verifier::external_body]
fn random_in(lo: u64, hi: u64) -> (r: u64)
    requires
        lo <= hi,
    ensures
        lo <= r <= hi,
{
    rand::random_range(lo..=hi)
}

impl MainMenu {
    /// Builds the menu screen.
    pub fn init() -> (s: Screen)
        ensures
            s == Screen::Menu(MainMenu {  }),
    {
        Screen::Menu(MainMenu {  })
    }

    /// Queues the menu scene: two filled sprite objects, a 100 by 100
    /// camera on a 512 by 512 display, camera 0 as output.
    fn init_screen(&self, drawbuffer: &mut Vec<DrawCall>, logic_buffer: &mut Vec<LogicCall>)
        ensures
            final(drawbuffer)@ == old(drawbuffer)@ + seq![
                DrawCall::DrawObject(0usize),
                DrawCall::DrawObject(1usize),
            ],
            final(logic_buffer)@.len() == old(logic_buffer)@.len() + 5,
            final(logic_buffer)@.subrange(0, old(logic_buffer)@.len() as int) == old(
                logic_buffer,
            )@,
            final(logic_buffer)@[old(logic_buffer)@.len() as int] matches LogicCall::InitObject(
                k,
                o,
            ) && k == 1 && o.sprite.wf() && o.needs_draw && o.point == (Point { x: 0i64, y: 0i64 })
                && o.sprite.size == (Size { width: 16usize, height: 16usize }),
            final(logic_buffer)@[old(logic_buffer)@.len() + 1 as int] == LogicCall::SetOutputCamera(
                Some(0usize),
            ),
            final(logic_buffer)@[old(logic_buffer)@.len() + 2 as int] matches LogicCall::InitObject(k, o)
                && k == 0 && o.sprite.wf() && o.needs_draw && o.point == (Point {
                x: 0i64,
                y: 0i64,
            }) && o.sprite.size == (Size { width: 512usize, height: 512usize }),
            final(logic_buffer)@[old(logic_buffer)@.len() + 3 as int] == LogicCall::SetDisplaySize(
                Size { width: 512usize, height: 512usize },
            ),
            final(logic_buffer)@[old(logic_buffer)@.len() + 4 as int] == LogicCall::SetCamera(
                0usize,
                Size { width: 100usize, height: 100usize },
                Point { x: 0i64, y: 0i64 },
            ),
    {
        let foreground = Object::new(
            Point { x: 0, y: 0 },
            Sprite::filled(Size::is(16, 16), [255, 255, 255, 127]),
        );
        let background = Object::new(
            Point { x: 0, y: 0 },
            Sprite::filled(Size::is(512, 512), [40, 90, 160, 255]),
        );
        logic_buffer.push(LogicCall::InitObject(1, foreground));
        logic_buffer.push(LogicCall::SetOutputCamera(Some(0)));
        logic_buffer.push(LogicCall::InitObject(0, background));
        logic_buffer.push(LogicCall::SetDisplaySize(Size::is(512, 512)));
        logic_buffer.push(LogicCall::SetCamera(0, Size::is(100, 100), Point { x: 0, y: 0 }));
        drawbuffer.push(DrawCall::DrawObject(0));
        drawbuffer.push(DrawCall::DrawObject(1));
        proof {
            assert(drawbuffer@ =~= old(drawbuffer)@ + seq![
                DrawCall::DrawObject(0usize),
                DrawCall::DrawObject(1usize),
            ]);
            assert(final(logic_buffer)@.subrange(0, old(logic_buffer)@.len() as int) =~= old(
                logic_buffer,
            )@);
        }
    }

    /// Moves the foreground object by the input direction; start opens
    /// the snake game, select quits, east switches the output camera off
    /// and widens camera 1.
    fn update(&mut self, logic_buffer: &mut Vec<LogicCall>, input: &InputState) -> (r: (
        Option<Screen>,
        bool,
    ))
        ensures
            *final(self) == *old(self),
            final(logic_buffer)@ == old(logic_buffer)@ + menu_update_calls(*input),
            r.1 == (!input.start && input.select),
            r.0 is Some <==> input.start,
            r.0 matches Some(s) ==> (s matches Screen::SnakeGame(sn) && snake_spawned(sn)),
    {
        logic_buffer.push(LogicCall::MoveObject(1, input.direction, 327680));
        if input.east {
            logic_buffer.push(LogicCall::SetOutputCamera(None));
            logic_buffer.push(
                LogicCall::SetCamera(1, Size::is(512, 512), Point { x: 0, y: 0 }),
            );
        }
        proof {
            assert(logic_buffer@ =~= old(logic_buffer)@ + menu_update_calls(*input));
        }
        if input.start {
            return (Some(Snake::init()), false);
        }
        if input.select {
            return (None, true);
        }
        (None, false)
    }

    /// Draws both menu objects every frame.
    fn draw(&self, drawbuffer: &mut Vec<DrawCall>)
        ensures
            final(drawbuffer)@ == old(drawbuffer)@ + seq![
                DrawCall::DrawObject(0usize),
                DrawCall::DrawObject(1usize),
            ],
    {
        drawbuffer.push(DrawCall::DrawObject(0));
        drawbuffer.push(DrawCall::DrawObject(1));
        proof {
            assert(drawbuffer@ =~= old(drawbuffer)@ + seq![
                DrawCall::DrawObject(0usize),
                DrawCall::DrawObject(1usize),
            ]);
        }
    }
}

impl Snake {
    /// Builds a fresh snake game screen with a randomly placed apple.
    pub fn init() -> (s: Screen)
        ensures
            s matches Screen::SnakeGame(sn) && snake_spawned(sn),
    {
        let mut snake = Snake {
            dir: Point::right(),
            next_dir: Point::right(),
            coord: Point::at(10, 10),
            next_coord: Point::at(11, 10),
            last_tail: Point::at(9, 10),
            segments: Vec::new(),
            apple: Apple { coord: Point { x: 0, y: 0 }, eaten: false },
            score: 0,
            frame_counter: 0,
        };
        snake.new_apple();
        proof {
            if snake_collides(snake, snake.apple.coord) {
                assert(snake_collides(
                    snake,
                    (Point { x: (1int * 65536) as i64, y: (1int * 65536) as i64 }),
                ));
                assert(snake.coord != (Point { x: (1int * 65536) as i64, y: (1int * 65536) as i64 }));
                assert(false);
            }
        }
        Screen::SnakeGame(snake)
    }

    /// Places a new uneaten apple on a board cell the snake does not
    /// occupy: a bounded number of random draws, then a deterministic
    /// scan of the board, so placement needs no unbounded retry loop.
    fn new_apple(&mut self)
        ensures
            final(self).dir == old(self).dir,
            final(self).next_dir == old(self).next_dir,
            final(self).coord == old(self).coord,
            final(self).next_coord == old(self).next_coord,
            final(self).last_tail == old(self).last_tail,
            final(self).segments == old(self).segments,
            final(self).score == old(self).score,
            final(self).frame_counter == old(self).frame_counter,
            final(self).apple.eaten == false,
            apple_on_board(final(self).apple.coord),
            snake_collides(*final(self), final(self).apple.coord) ==> forall|cx: int, cy: int|
                1 <= cx <= 20 && 1 <= cy <= 20 ==> #[trigger] snake_collides(
                    *final(self),
                    (Point { x: (cx * 65536) as i64, y: (cy * 65536) as i64 }),
                ),
    {
        let mut tries: usize = 0;
        while tries < 64
            invariant
                *self == *old(self),
            decreases 64 - tries,
        {
            let rx: u64 = random_in(1, 20);
            let ry: u64 = random_in(1, 20);
            let c = Point::at(rx as i64, ry as i64);
            proof {
                vstd::arithmetic::div_mod::lemma_mod_multiples_basic(rx as int, 65536);
                vstd::arithmetic::div_mod::lemma_mod_multiples_basic(ry as int, 65536);
            }
            if !self.check_collision(c) {
                self.apple = Apple { coord: c, eaten: false };
                return ;
            }
            tries = tries + 1;
        }
        let mut cx: i64 = 1;
        while cx <= 20
            invariant
                1 <= cx <= 21,
                *self == *old(self),
                forall|px: int, py: int|
                    1 <= px < cx && 1 <= py <= 20 ==> #[trigger] snake_collides(
                        *old(self),
                        (Point { x: (px * 65536) as i64, y: (py * 65536) as i64 }),
                    ),
            decreases 21 - cx,
        {
            let mut cy: i64 = 1;
            while cy <= 20
                invariant
                    1 <= cx <= 20,
                    1 <= cy <= 21,
                    *self == *old(self),
                    forall|py: int|
                        1 <= py < cy ==> #[trigger] snake_collides(
                            *old(self),
                            (Point { x: (cx * 65536) as i64, y: (py * 65536) as i64 }),
                        ),
                decreases 21 - cy,
            {
                let c = Point::at(cx, cy);
                proof {
                    vstd::arithmetic::div_mod::lemma_mod_multiples_basic(cx as int, 65536);
                    vstd::arithmetic::div_mod::lemma_mod_multiples_basic(cy as int, 65536);
                }
                if !self.check_collision(c) {
                    self.apple = Apple { coord: c, eaten: false };
                    return ;
                }
                cy = cy + 1;
            }
            cx = cx + 1;
        }
        proof {
            vstd::arithmetic::div_mod::lemma_mod_multiples_basic(1, 65536);
        }
        self.apple = Apple { coord: Point::at(1, 1), eaten: false };
        proof {
            assert forall|cx: int, cy: int| 1 <= cx <= 20 && 1 <= cy <= 20 implies #[trigger] snake_collides(
                *self,
                (Point { x: (cx * 65536) as i64, y: (cy * 65536) as i64 }),
            ) by {
                assert(snake_collides(
                    *old(self),
                    (Point { x: (cx * 65536) as i64, y: (cy * 65536) as i64 }),
                ));
                assert(self.coord == old(self).coord && self.segments@ == old(self).segments@);
            }
        }
    }

    /// True when the point collides with the snake's head or any body
    /// segment.
    fn check_collision(&self, point: Point) -> (r: bool)
        ensures
            r == snake_collides(*self, point),
    {
        if self.coord == point {
            return true;
        }
        let mut i: usize = 0;
        while i < self.segments.len()
            invariant
                i <= self.segments@.len(),
                forall|j: int| 0 <= j < i ==> self.segments@[j] != point,
            decreases self.segments@.len() - i,
        {
            if self.segments[i] == point {
                return true;
            }
            i = i + 1;
        }
        false
    }

    /// True when the snake's next position lies on or beyond the wall.
    fn check_collision_wall(&self) -> (r: bool)
        ensures
            r == snake_hits_wall(self.next_coord),
    {
        let x = self.next_coord.x;
        let y = self.next_coord.y;
        x > 20 * FP_ONE || x == 0 || y > 20 * FP_ONE || y == 0
    }

    /// Reads the cardinal inputs into the pending direction (refusing
    /// reversals) and recomputes the next head position.
    fn change_dir(&mut self, input: &InputState)
        ensures
            final(self).next_dir == snake_next_dir(*old(self), *input),
            final(self).next_coord == nudge_spec(
                old(self).coord,
                snake_next_dir(*old(self), *input),
                FP_ONE as int,
            ),
            final(self).dir == old(self).dir,
            final(self).coord == old(self).coord,
            final(self).last_tail == old(self).last_tail,
            final(self).segments == old(self).segments,
            final(self).apple == old(self).apple,
            final(self).score == old(self).score,
            final(self).frame_counter == old(self).frame_counter,
    {
        if input.up && !(self.dir == Point::down()) {
            self.next_dir = Point::up();
        }
        if input.down && !(self.dir == Point::up()) {
            self.next_dir = Point::down();
        }
        if input.left && !(self.dir == Point::right()) {
            self.next_dir = Point::left();
        }
        if input.right && !(self.dir == Point::left()) {
            self.next_dir = Point::right();
        }
        self.next_coord = self.coord.nudge(self.next_dir, FP_ONE);
    }

    /// Turns the current head into the newest body segment and moves the
    /// head to the next position.
    fn append_snake(&mut self)
        ensures
            final(self).segments@ == seq![old(self).coord] + old(self).segments@,
            final(self).coord == old(self).next_coord,
            final(self).dir == old(self).dir,
            final(self).next_dir == old(self).next_dir,
            final(self).next_coord == old(self).next_coord,
            final(self).last_tail == old(self).last_tail,
            final(self).apple == old(self).apple,
            final(self).score == old(self).score,
            final(self).frame_counter == old(self).frame_counter,
    {
        self.segments.insert(0, self.coord);
        self.coord = self.next_coord;
        proof {
            assert(self.segments@ =~= seq![old(self).coord] + old(self).segments@);
        }
    }

    /// Moves one cell forward: grows at the head and drops the tail,
    /// remembering the dropped cell so the renderer can erase it.
    fn move_forward(&mut self)
        ensures
            final(self).segments@ == (seq![old(self).coord] + old(self).segments@).drop_last(),
            final(self).last_tail == (seq![old(self).coord] + old(self).segments@).last(),
            final(self).coord == old(self).next_coord,
            final(self).dir == old(self).dir,
            final(self).next_dir == old(self).next_dir,
            final(self).next_coord == old(self).next_coord,
            final(self).apple == old(self).apple,
            final(self).score == old(self).score,
            final(self).frame_counter == old(self).frame_counter,
    {
        self.append_snake();
        let tail = self.segments.pop().unwrap();
        self.last_tail = tail;
    }

    /// Ends the game when the next position hits the body or the wall
    /// (unless the head chases its own tail cell); marks the apple eaten
    /// when the next position reaches it.
    fn handle_collision(&mut self) -> (r: bool)
        ensures
            r == ((snake_collides(*old(self), old(self).next_coord) || snake_hits_wall(
                old(self).next_coord,
            )) && old(self).coord != old(self).last_tail),
            final(self).apple.coord == old(self).apple.coord,
            final(self).apple.eaten == (old(self).apple.eaten || (!r && old(self).next_coord == old(
                self,
            ).apple.coord)),
            final(self).dir == old(self).dir,
            final(self).next_dir == old(self).next_dir,
            final(self).coord == old(self).coord,
            final(self).next_coord == old(self).next_coord,
            final(self).last_tail == old(self).last_tail,
            final(self).segments == old(self).segments,
            final(self).score == old(self).score,
            final(self).frame_counter == old(self).frame_counter,
    {
        let hits = self.check_collision(self.next_coord) || self.check_collision_wall();
        if hits && !(self.coord == self.last_tail) {
            return true;
        } else if self.next_coord == self.apple.coord {
            self.apple.eaten = true;
        }
        false
    }

    /// Consumes the apple: counts the score (saturating), grows by one
    /// segment, and spawns the next apple.
    fn eat_apple_and_grow(&mut self)
        ensures
            final(self).score == if old(self).score < 65535 {
                old(self).score + 1
            } else {
                old(self).score as int
            },
            final(self).segments@ == seq![old(self).coord] + old(self).segments@,
            final(self).coord == old(self).next_coord,
            final(self).apple.eaten == false,
            apple_on_board(final(self).apple.coord),
            final(self).dir == old(self).dir,
            final(self).next_dir == old(self).next_dir,
            final(self).next_coord == old(self).next_coord,
            final(self).last_tail == old(self).last_tail,
            final(self).frame_counter == old(self).frame_counter,
    {
        if self.score < 65535 {
            self.score = self.score + 1;
        }
        self.append_snake();
        self.new_apple();
    }

    /// Queues the initial scene: head and apple pixels, the filled board
    /// background, the wall outline, no output camera, a 22 by 22
    /// display.
    fn init_screen(&self, drawbuffer: &mut Vec<DrawCall>, logic_buffer: &mut Vec<LogicCall>)
        ensures
            final(drawbuffer)@ == old(drawbuffer)@ + seq![DrawCall::DrawObject(1usize)],
            final(logic_buffer)@ == old(logic_buffer)@ + snake_init_calls(*self),
    {
        logic_buffer.push(LogicCall::PixelAt(self.coord, [175, 105, 238, 255]));
        logic_buffer.push(LogicCall::PixelAt(self.apple.coord, [167, 199, 231, 255]));
        logic_buffer.push(
            LogicCall::FillRange(Point::at(0, 0), Point::at(21, 21), [248, 185, 212, 255]),
        );
        logic_buffer.push(
            LogicCall::Rectangle(Point::at(0, 0), Point::at(21, 21), [0, 0, 255, 127]),
        );
        logic_buffer.push(LogicCall::SetOutputCamera(None));
        logic_buffer.push(LogicCall::SetDisplaySize(Size::is(22, 22)));
        drawbuffer.push(DrawCall::DrawObject(1));
        proof {
            assert(logic_buffer@ =~= old(logic_buffer)@ + snake_init_calls(*self));
            assert(drawbuffer@ =~= old(drawbuffer)@ + seq![DrawCall::DrawObject(1usize)]);
        }
    }

    /// One game tick: queue the redraw pixels, read input, and every
    /// third frame move the snake, handle collisions, or eat the apple;
    /// returns the menu screen when the game ends.
    fn update(&mut self, logic_buffer: &mut Vec<LogicCall>, input: &InputState) -> (r: (
        Option<Screen>,
        bool,
    ))
        ensures
            final(logic_buffer)@ == old(logic_buffer)@ + snake_update_calls(*old(self)),
            r.1 == false,
            r.0 == if snake_game_over(*old(self), *input) {
                Some(Screen::Menu(MainMenu {  }))
            } else {
                None::<Screen>
            },
            ({
                let before = *old(self);
                let after = *final(self);
                before.frame_counter != 3 ==> {
                    &&& after.next_dir == snake_next_dir(before, *input)
                    &&& after.next_coord == nudge_spec(
                        before.coord,
                        snake_next_dir(before, *input),
                        FP_ONE as int,
                    )
                    &&& after.frame_counter == (if before.frame_counter == 255 {
                        0u8
                    } else {
                        (before.frame_counter + 1) as u8
                    })
                    &&& after.dir == before.dir
                    &&& after.coord == before.coord
                    &&& after.last_tail == before.last_tail
                    &&& after.segments == before.segments
                    &&& after.apple.coord == before.apple.coord
                    &&& after.apple.eaten == before.apple.eaten
                    &&& after.score == before.score
                }
            }),
            ({
                let before = *old(self);
                let after = *final(self);
                let nd = snake_next_dir(before, *input);
                let nc = nudge_spec(before.coord, nd, FP_ONE as int);
                before.frame_counter == 3 && !snake_game_over(before, *input)
                    && !before.apple.eaten && nc != before.apple.coord ==> {
                    &&& after.coord == nc
                    &&& after.segments@ == (seq![before.coord] + before.segments@).drop_last()
                    &&& after.last_tail == (seq![before.coord] + before.segments@).last()
                    &&& after.dir == nd
                    &&& after.frame_counter == 0
                    &&& after.score == before.score
                    &&& after.apple.coord == before.apple.coord
                    &&& after.apple.eaten == false
                }
            }),
            ({
                let before = *old(self);
                let after = *final(self);
                let nd = snake_next_dir(before, *input);
                let nc = nudge_spec(before.coord, nd, FP_ONE as int);
                before.frame_counter == 3 && !snake_game_over(before, *input)
                    && (before.apple.eaten || nc == before.apple.coord) ==> {
                    &&& after.coord == nc
                    &&& after.segments@ == seq![before.coord] + before.segments@
                    &&& after.dir == nd
                    &&& after.frame_counter == 0
                    &&& after.apple.eaten == false
                    &&& apple_on_board(after.apple.coord)
                }
            }),
    {
        logic_buffer.push(LogicCall::PixelAt(self.last_tail, [248, 185, 212, 255]));
        logic_buffer.push(LogicCall::PixelAt(self.coord, [175, 105, 238, 255]));
        logic_buffer.push(LogicCall::PixelAt(self.apple.coord, [167, 199, 231, 255]));
        proof {
            assert(logic_buffer@ =~= old(logic_buffer)@ + snake_update_calls(*old(self)));
        }
        self.change_dir(input);
        if self.frame_counter == 3 {
            if !(self.dir == self.next_dir) {
                self.dir = self.next_dir;
            }
            if self.handle_collision() {
                return (Some(MainMenu::init()), false);
            }
            if self.apple.eaten {
                self.eat_apple_and_grow();
            } else {
                self.move_forward();
            }
            self.frame_counter = 0;
        } else {
            self.frame_counter = if self.frame_counter == 255 {
                0
            } else {
                self.frame_counter + 1
            };
        }
        (None, false)
    }

    /// Flushes the queued pixels every frame.
    fn draw(&self, drawbuffer: &mut Vec<DrawCall>)
        ensures
            final(drawbuffer)@ == old(drawbuffer)@ + seq![DrawCall::DrawPixels],
    {
        drawbuffer.push(DrawCall::DrawPixels);
        proof {
            assert(drawbuffer@ =~= old(drawbuffer)@ + seq![DrawCall::DrawPixels]);
        }
    }
}

impl Screen {
    /// Lets the screen queue its initial scene after a transition.
    pub fn init_screen(&self, drawbuffer: &mut Vec<DrawCall>, logic_buffer: &mut Vec<LogicCall>)
        ensures
            self matches Screen::SnakeGame(sn) ==> final(logic_buffer)@ == old(logic_buffer)@
                + snake_init_calls(*sn) && final(drawbuffer)@ == old(drawbuffer)@ + seq![
                DrawCall::DrawObject(1usize),
            ],
            self matches Screen::Menu(_) ==> final(logic_buffer)@.len() == old(
                logic_buffer,
            )@.len() + 5 && final(drawbuffer)@ == old(drawbuffer)@ + seq![
                DrawCall::DrawObject(0usize),
                DrawCall::DrawObject(1usize),
            ],
    {
        match self {
            Screen::Menu(m) => m.init_screen(drawbuffer, logic_buffer),
            Screen::SnakeGame(s) => s.init_screen(drawbuffer, logic_buffer),
        }
    }

    /// Runs one logic update, enqueuing this screen's logic commands and
    /// reporting an optional next screen and a kill request.
    pub fn update(&mut self, logic_buffer: &mut Vec<LogicCall>, input: &InputState) -> (r: (
        Option<Screen>,
        bool,
    ))
        ensures
            final(logic_buffer)@ == old(logic_buffer)@ + update_calls(*old(self), *input),
            r.1 == update_kill(*old(self), *input),
            r.0 is Some <==> update_transitions(*old(self), *input),
            r.0 matches Some(next) ==> transition_target(*old(self), next),
            same_screen_kind(*final(self), *old(self)),
            *old(self) matches Screen::Menu(_) ==> *final(self) == *old(self),
    {
        match self {
            Screen::Menu(m) => m.update(logic_buffer, input),
            Screen::SnakeGame(s) => s.update(logic_buffer, input),
        }
    }

    /// Queues this screen's draw commands for the frame.
    pub fn draw(&self, drawbuffer: &mut Vec<DrawCall>)
        ensures
            final(drawbuffer)@ == old(drawbuffer)@ + draw_calls_spec(*self),
    {
        match self {
            Screen::Menu(m) => m.draw(drawbuffer),
            Screen::SnakeGame(s) => s.draw(drawbuffer),
        }
    }
}

} // verus!
