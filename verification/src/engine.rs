//! The engine loop: a fixed-timestep scheduler that accumulates elapsed
//! real time, drains whole logic ticks at a constant rate, and renders
//! once per real frame.

use vstd::prelude::*;

use vstd::arithmetic::div_mod::{
    lemma_fundamental_div_mod, lemma_mod_pos_bound, lemma_mod_sub_multiples_vanish,
    lemma_small_mod,
};

use crate::display::{present_spec, Display, DrawCall};
use crate::input::InputState;
use crate::renderer::RenderHook;
use crate::screens::{lemma_update_kill_by_kind, same_screen_kind, update_kill, Screen};
use crate::shared::{Point, Size};

verus! {

/// Commands the engine can receive from its surroundings.
pub enum EngineCommand {
    End,
    Draw,
}

/// The longest span of real time one frame may contribute to the
/// accumulator, in nanoseconds: a stall never produces an unbounded
/// burst of catch-up ticks.
pub const MAX_FRAME_NANOS: u64 = 250000000;

/// The elapsed time one frame feeds the accumulator: the measured time,
/// clamped to the stall limit.
pub open spec fn clamped_frame(elapsed_nanos: u64) -> int {
    if elapsed_nanos <= MAX_FRAME_NANOS {
        elapsed_nanos as int
    } else {
        MAX_FRAME_NANOS as int
    }
}

/// Owns the display and the renderer and schedules their updates
/// against real time.
pub struct Engine {
    pub display: Display,
    pub renderer: RenderHook,
    /// Duration of one logic tick in nanoseconds.
    pub tickrate: u64,
    /// Unsimulated real time, in nanoseconds; always less than one tick
    /// after a frame completes.
    pub accumulator: u64,
}

impl Engine {
    pub open spec fn wf(self) -> bool {
        &&& self.display.wf()
        &&& self.renderer.wf()
        &&& 1 <= self.tickrate
    }

    /// Builds an engine running the given screen at a fixed number of
    /// logic ticks per second, with a 1 by 1 display and renderer that
    /// the first initialization cycle resizes.
    pub fn initialize(tickrate: u64, display_point: Point, screen: Screen) -> (e: Engine)
        requires
            1 <= tickrate <= 1000000000,
        ensures
            e.wf(),
            e.tickrate == 1000000000int / tickrate as int,
            e.accumulator == 0,
            e.display.needs_init == true,
            e.display.screen == screen,
            e.display.model().position == display_point,
            e.display.model().display_size == (Size { width: 1usize, height: 1usize }),
            e.renderer.render_size == (Size { width: 1usize, height: 1usize }),
    {
        proof {
            lemma_fundamental_div_mod(1000000000, tickrate as int);
            lemma_mod_pos_bound(1000000000, tickrate as int);
            assert(1000000000int / (tickrate as int) >= 1) by (nonlinear_arith)
                requires
                    1 <= tickrate <= 1000000000,
                    1000000000int == (tickrate as int) * (1000000000int / (tickrate as int))
                        + 1000000000int % (tickrate as int),
                    0 <= 1000000000int % (tickrate as int) < tickrate as int,
            ;
        }
        Engine {
            display: Display::new_at(display_point, screen, Size::is(1, 1)),
            renderer: RenderHook::create_render_hook(Size::is(1, 1)),
            tickrate: 1000000000 / tickrate,
            accumulator: 0,
        }
    }

    /// Adds one frame's elapsed real time to the accumulator, clamped to
    /// the stall limit.
    pub fn update_time(&mut self, elapsed_nanos: u64)
        requires
            old(self).accumulator <= u64::MAX - MAX_FRAME_NANOS,
        ensures
            final(self).accumulator == old(self).accumulator + clamped_frame(elapsed_nanos),
            final(self).display == old(self).display,
            final(self).renderer == old(self).renderer,
            final(self).tickrate == old(self).tickrate,
    {
        let frame_time: u64 = if elapsed_nanos <= MAX_FRAME_NANOS {
            elapsed_nanos
        } else {
            MAX_FRAME_NANOS
        };
        self.accumulator = self.accumulator + frame_time;
    }

    /// Runs one engine cycle. An uninitialized display runs one
    /// initialization cycle and nothing else. Otherwise the elapsed time
    /// joins the accumulator, whole logic ticks run while a full tick of
    /// time is banked, and the frame is rendered and presented once,
    /// however many ticks ran. Returns true exactly when a tick fired
    /// and its logic asked the program to stop; the killed tick consumes
    /// no banked time and no render happens after it.
    ///
    /// Unless a tick kills the loop, the leftover accumulator is exactly
    /// the banked time modulo the tick duration: no tick is lost and
    /// none is duplicated.
    pub fn run_once(&mut self, input_state: &InputState, elapsed_nanos: u64) -> (kill: bool)
        requires
            old(self).wf(),
            old(self).accumulator <= u64::MAX - MAX_FRAME_NANOS,
        ensures
            final(self).wf(),
            final(self).tickrate == old(self).tickrate,
            old(self).display.needs_init ==> {
                &&& kill == false
                &&& final(self).display.needs_init == false
                &&& final(self).accumulator == old(self).accumulator
                &&& final(self).display.draw_queue() == Seq::<DrawCall>::empty()
                &&& (final(self).renderer.render_size, final(self).renderer.frame@)
                    == present_spec(
                    final(self).display.model(),
                    old(self).renderer.render_size,
                    old(self).renderer.frame@,
                )
            },
            !old(self).display.needs_init ==> kill == (old(self).accumulator + clamped_frame(
                elapsed_nanos,
            ) >= old(self).tickrate && update_kill(old(self).display.screen, *input_state)),
            !old(self).display.needs_init ==> same_screen_kind(
                final(self).display.screen,
                old(self).display.screen,
            ),
            !old(self).display.needs_init && kill ==> final(self).accumulator == old(
                self,
            ).accumulator + clamped_frame(elapsed_nanos) && final(self).renderer == old(
                self,
            ).renderer,
            !old(self).display.needs_init && !kill ==> final(self).accumulator == (old(
                self,
            ).accumulator + clamped_frame(elapsed_nanos)) % (old(self).tickrate as int),
            !old(self).display.needs_init && !kill ==> final(self).accumulator < old(
                self,
            ).tickrate,
            !old(self).display.needs_init && !kill ==> (
            final(self).renderer.render_size,
            final(self).renderer.frame@,
            ) == present_spec(
                final(self).display.model(),
                old(self).renderer.render_size,
                old(self).renderer.frame@,
            ),
    {
        if self.display.needs_init {
            self.display.init_display(input_state, &mut self.renderer);
            return false;
        }
        self.update_time(elapsed_nanos);
        let ghost banked: int = self.accumulator as int;
        let ghost tick: int = self.tickrate as int;
        let ghost mut ticked: bool = false;
        while self.accumulator >= self.tickrate
            invariant
                self.wf(),
                !old(self).display.needs_init,
                self.tickrate == old(self).tickrate,
                tick == self.tickrate as int,
                banked == old(self).accumulator + clamped_frame(elapsed_nanos),
                self.accumulator <= banked,
                (self.accumulator as int) % tick == banked % tick,
                self.renderer == old(self).renderer,
                same_screen_kind(self.display.screen, old(self).display.screen),
                ticked ==> !update_kill(old(self).display.screen, *input_state),
                !ticked ==> self.accumulator == banked,
            decreases self.accumulator,
        {
            let ghost screen_before: Screen = self.display.screen;
            let tick_kill = self.display.logic_update(input_state);
            proof {
                lemma_update_kill_by_kind(screen_before, old(self).display.screen, *input_state);
            }
            if tick_kill {
                proof {
                    if ticked {
                        assert(false);
                    }
                }
                return true;
            }
            proof {
                ticked = true;
                lemma_mod_sub_multiples_vanish(self.accumulator as int, tick);
            }
            self.accumulator = self.accumulator - self.tickrate;
        }
        proof {
            lemma_small_mod(self.accumulator as nat, self.tickrate as nat);
            if !ticked {
                assert(banked < tick);
            }
        }
        self.display.render(&mut self.renderer);
        false
    }
}

/// Law: the fixed-timestep scheduler conserves time. Banking `acc +
/// elapsed` nanoseconds fires exactly `(acc + elapsed) / tick` whole
/// ticks, and what remains is less than one tick; the ticks fired times
/// the tick duration plus the leftover is exactly the banked time.
pub proof fn lemma_tick_conservation(acc: int, elapsed: int, tick: int)
    requires
        0 <= acc,
        0 <= elapsed,
        1 <= tick,
    ensures
        0 <= (acc + elapsed) % tick < tick,
        acc + elapsed == tick * ((acc + elapsed) / tick) + (acc + elapsed) % tick,
{
    lemma_fundamental_div_mod(acc + elapsed, tick);
    lemma_mod_pos_bound(acc + elapsed, tick);
}

} // verus!
