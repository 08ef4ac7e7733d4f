use rusty_backend::app::App;

// A fresh application has its terminal context set up, an initial draw
// pending, and is not quitting.
#[test]
fn app_starts_ready_to_draw() {
    let app = App::new(100);
    assert!(!app.quit);
    assert!(app.redraw);
    assert_eq!(app.last_redraw, 100);
    let ctx = app.context.as_ref().unwrap();
    assert!(ctx.alternate_screen);
    assert!(ctx.cleared);
}

// The loop draws when a redraw is pending, and again once the last draw
// is older than the redraw interval.
#[test]
fn refresh_decision() {
    let mut app = App::new(100);
    assert!(app.needs_refresh(100));
    app.reset(100);
    assert!(!app.needs_refresh(120));
    assert!(!app.needs_refresh(150));
    assert!(app.needs_refresh(151));
    app.redraw();
    assert!(app.needs_refresh(101));
}

#[test]
fn quit_and_teardown() {
    let mut app = App::new(0);
    app.quit();
    assert!(app.quit);
    let ctx = app.take_context();
    assert!(ctx.is_some());
    assert!(app.context.is_none());
    assert!(app.take_context().is_none());
}
