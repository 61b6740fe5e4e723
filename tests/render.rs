use splash::render::{Action, Feedback, Geometry, Key, Mode, Msg, Phase, RenderError, Renderer, Scene};

fn renderer() -> Renderer {
    Renderer::new(Geometry { width: 800, height: 600, bytes_per_pixel: 4 })
}

fn scene(w: u32, h: u32) -> Option<Scene> {
    let mut img = bmp::Image::new(w, h);
    img.set_pixel(0, 0, bmp::Pixel::new(1, 2, 3));
    Some(Scene { xoffset: None, yoffset: None, image: Some(img) })
}

fn buffer(r: &Renderer) -> Vec<u8> {
    r.frame().expect("a frame").buffer().clone()
}

#[test]
fn start_then_stop() {
    let mut r = renderer();
    assert_eq!(r.phase(), Phase::Idle);
    assert_eq!(r.mode(), Mode::Text);
    let actions = r.handle(Msg::Start, scene(100, 100));
    assert_eq!(actions, vec![Action::SetMode(Mode::Graphics), Action::Present]);
    assert_eq!(r.mode(), Mode::Graphics);
    assert_eq!(r.phase(), Phase::Showing);
    // x offset (800 / 4) / 2 - 100 / 2 = 50, y offset 600 / 2 - 100 / 2 = 250
    let shown = buffer(&r);
    assert_eq!(shown.len(), 800 * 600);
    let idx = 250 * 800 + 50 * 4;
    assert_eq!(&shown[idx..idx + 4], &[3, 2, 1, 0]);
    let actions = r.handle(Msg::Stop, None);
    assert_eq!(actions, vec![Action::SetMode(Mode::Text)]);
    assert_eq!(r.mode(), Mode::Text);
    assert_eq!(r.phase(), Phase::Idle);
    assert_eq!(buffer(&r), shown);
}

#[test]
fn start_without_image_halts() {
    let mut r = renderer();
    let actions = r.handle(Msg::Start, Some(Scene { xoffset: None, yoffset: None, image: None }));
    assert_eq!(actions, vec![Action::Halt(RenderError::ImageUnavailable)]);
    assert_eq!(r.phase(), Phase::Halted);
    let mut r = renderer();
    assert_eq!(r.handle(Msg::Start, None), vec![Action::Halt(RenderError::ImageUnavailable)]);
}

#[test]
fn failed_restart_returns_to_text_mode() {
    let mut r = renderer();
    r.handle(Msg::Start, scene(100, 100));
    let actions = r.handle(Msg::Start, scene(900, 10));
    assert_eq!(
        actions,
        vec![Action::SetMode(Mode::Text), Action::Halt(RenderError::OutOfBoundsWrite)]
    );
    assert_eq!(r.mode(), Mode::Text);
}

#[test]
fn halted_loop_ignores_commands() {
    let mut r = renderer();
    r.handle(Msg::Start, None);
    assert_eq!(r.handle(Msg::Start, scene(10, 10)), vec![]);
    assert_eq!(r.handle(Msg::Stop, None), vec![]);
    assert_eq!(r.mode(), Mode::Text);
}

#[test]
fn device_fault_returns_to_text_mode() {
    let mut r = renderer();
    r.handle(Msg::Start, scene(10, 10));
    assert_eq!(r.abort(), vec![Action::SetMode(Mode::Text), Action::Halt(RenderError::DeviceFault)]);
    assert_eq!(r.mode(), Mode::Text);
    assert_eq!(r.phase(), Phase::Halted);
    let mut r = renderer();
    assert_eq!(r.abort(), vec![Action::Halt(RenderError::DeviceFault)]);
}

#[test]
fn other_key_changes_nothing() {
    let mut r = renderer();
    r.handle(Msg::Start, scene(100, 100));
    r.handle(Msg::KeyPressed(Key::Char('a')), None);
    let before = buffer(&r);
    assert_eq!(r.handle(Msg::KeyPressed(Key::Backspace), None), vec![]);
    assert_eq!(r.handle(Msg::KeyPressed(Key::Unknown), None), vec![]);
    assert_eq!(buffer(&r), before);
    assert_eq!(r.mode(), Mode::Graphics);
    assert_eq!(r.feedback(), Some(Feedback::Typing));
}

#[test]
fn keys_and_verdicts_select_feedback() {
    let mut r = renderer();
    r.handle(Msg::Start, scene(10, 10));
    let shown = buffer(&r);
    let cases = [
        (Msg::KeyPressed(Key::Enter), Feedback::Validating),
        (Msg::KeyPressed(Key::Char('x')), Feedback::Typing),
        (Msg::KeyPressed(Key::Escape), Feedback::Cleared),
        (Msg::Success, Feedback::Succeeded),
        (Msg::Fail, Feedback::Failed),
    ];
    for (msg, expected) in cases {
        assert_eq!(r.handle(msg, None), vec![]);
        assert_eq!(r.feedback(), Some(expected));
    }
    assert_eq!(buffer(&r), shown);
}

#[test]
fn keys_while_idle_do_nothing() {
    let mut r = renderer();
    assert_eq!(r.handle(Msg::KeyPressed(Key::Enter), None), vec![]);
    assert_eq!(r.feedback(), None);
    assert!(r.frame().is_none());
}

#[test]
fn commands_apply_in_the_order_given() {
    let mut r = renderer();
    r.handle(Msg::Start, scene(10, 10));
    r.handle(Msg::KeyPressed(Key::Char('a')), None);
    r.handle(Msg::KeyPressed(Key::Escape), None);
    assert_eq!(r.feedback(), Some(Feedback::Cleared));
    r.handle(Msg::KeyPressed(Key::Escape), None);
    r.handle(Msg::KeyPressed(Key::Char('a')), None);
    assert_eq!(r.feedback(), Some(Feedback::Typing));
}

#[test]
fn stop_always_sets_text_mode() {
    let mut r = renderer();
    assert_eq!(r.handle(Msg::Stop, None), vec![Action::SetMode(Mode::Text)]);
    assert_eq!(r.mode(), Mode::Text);
}
