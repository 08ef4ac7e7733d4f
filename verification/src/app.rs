//! The application shell's state.
//!
//! The terminal itself — reading key events, drawing, sleeping — is I/O
//! and stays outside this crate. What is modelled here is the state the
//! event loop decides on: the quit and redraw flags, the time of the last
//! redraw (in milliseconds of some monotonic clock the loop reads), and
//! the terminal context whose setup and teardown bracket a run.

use vstd::prelude::*;

verus! {

/// The number of milliseconds a redraw may lag an event before the loop
/// refreshes anyway.
pub const REDRAW_INTERVAL_MS: u64 = 50;

/// The terminal context: which of its setup steps have been taken.
pub struct Context {
    /// The alternate screen has been entered.
    pub alternate_screen: bool,
    /// The screen has been cleared.
    pub cleared: bool,
}

impl Context {
    /// A fresh context: nothing set up yet.
    pub fn new() -> (r: Context)
        ensures
            !r.alternate_screen,
            !r.cleared,
    {
        Context { alternate_screen: false, cleared: false }
    }

    /// Enter the alternate screen.
    pub fn enter_alternate_screen(&mut self)
        ensures
            final(self).alternate_screen,
            final(self).cleared == old(self).cleared,
    {
        self.alternate_screen = true;
    }

    /// Clear the screen.
    pub fn clear_screen(&mut self)
        ensures
            final(self).cleared,
            final(self).alternate_screen == old(self).alternate_screen,
    {
        self.cleared = true;
    }
}

/// The application's state between event-loop turns.
pub struct App {
    /// Becomes true when the user asks to quit.
    pub quit: bool,
    /// Whether the interface must be drawn again.
    pub redraw: bool,
    /// When the interface was last drawn, in clock milliseconds.
    pub last_redraw: u64,
    /// The terminal context; `None` once it has been torn down.
    pub context: Option<Context>,
}

impl App {
    /// A fresh application at clock time `now`: the context set up, one
    /// initial draw pending, not quitting.
    pub fn new(now: u64) -> (r: App)
        ensures
            !r.quit,
            r.redraw,
            r.last_redraw == now,
            r.context matches Some(c) && c.alternate_screen && c.cleared,
    {
        let mut ctx: Context = Context::new();
        ctx.enter_alternate_screen();
        ctx.clear_screen();
        App { quit: false, redraw: true, last_redraw: now, context: Some(ctx) }
    }

    /// Ask to quit: the event loop ends at its next turn.
    pub fn quit(&mut self)
        ensures
            final(self).quit,
            final(self).redraw == old(self).redraw,
            final(self).last_redraw == old(self).last_redraw,
            final(self).context == old(self).context,
    {
        self.quit = true;
    }

    /// Note that the interface must be drawn again.
    pub fn redraw(&mut self)
        ensures
            final(self).redraw,
            final(self).quit == old(self).quit,
            final(self).last_redraw == old(self).last_redraw,
            final(self).context == old(self).context,
    {
        self.redraw = true;
    }

    /// The decision the event loop takes each turn: draw now if a redraw
    /// is pending or the last draw is older than the redraw interval.
    pub fn needs_refresh(&self, now: u64) -> (r: bool)
        requires
            now >= self.last_redraw,
        ensures
            r == (self.redraw || now - self.last_redraw > REDRAW_INTERVAL_MS),
    {
        self.redraw || now - self.last_redraw > REDRAW_INTERVAL_MS
    }

    /// After a draw at clock time `now`: nothing pending, the draw time
    /// remembered.
    pub fn reset(&mut self, now: u64)
        ensures
            !final(self).redraw,
            final(self).last_redraw == now,
            final(self).quit == old(self).quit,
            final(self).context == old(self).context,
    {
        self.redraw = false;
        self.last_redraw = now;
    }

    /// Tear the terminal context down, as the end of a run does; hands it
    /// back so the caller can release the terminal.
    pub fn take_context(&mut self) -> (r: Option<Context>)
        ensures
            final(self).context is None,
            r == old(self).context,
            final(self).quit == old(self).quit,
            final(self).redraw == old(self).redraw,
            final(self).last_redraw == old(self).last_redraw,
    {
        self.context.take()
    }
}

} // verus!
