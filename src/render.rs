use vstd::prelude::*;

use crate::bitmap::{image_height, image_pixels, image_width};
use crate::frame::{
    drawn_image, lemma_image_outside_unchanged, outside_image, placed_x, placed_y, Frame, FrameError,
    FrameView,
};

verus! {

/// A key event forwarded by the password prompt.
#[derive(Clone, Copy, Debug, PartialEq, Eq, Structural)]
pub enum Key {
    Enter,
    Escape,
    Backspace,
    Char(char),
    Unknown,
}

/// A command for the render loop.
#[derive(Clone, Copy, Debug, PartialEq, Eq, Structural)]
pub enum Msg {
    Start,
    Stop,
    KeyPressed(Key),
    Success,
    Fail,
}

/// The console mode of the display.
#[derive(Clone, Copy, Debug, PartialEq, Eq, Structural)]
pub enum Mode {
    Text,
    Graphics,
}

/// Where the render loop stands.
#[derive(Clone, Copy, Debug, PartialEq, Eq, Structural)]
pub enum Phase {
    /// No splash shown.
    Idle,
    /// The splash is on the display.
    Showing,
    /// A fatal error ended the loop.
    Halted,
}

/// The feedback step that the last key or verdict led to while showing.
#[derive(Clone, Copy, Debug, PartialEq, Eq, Structural)]
pub enum Feedback {
    Validating,
    Typing,
    Cleared,
    Succeeded,
    Failed,
}

/// Why the render loop stopped.
#[derive(Clone, Copy, Debug, PartialEq, Eq, Structural)]
pub enum RenderError {
    /// The splash image could not be opened or decoded.
    ImageUnavailable,
    /// The image does not fit on the display at its placement.
    OutOfBoundsWrite,
    /// The image has more than `u32::MAX` pixels.
    ImageTooLarge,
    /// A mode switch or a copy to the device failed.
    DeviceFault,
}

/// What the device owner is asked to do, in order.
#[derive(Clone, Copy, Debug, PartialEq, Eq, Structural)]
pub enum Action {
    /// Switch the console to this mode.
    SetMode(Mode),
    /// Copy the current frame's bytes to the device.
    Present,
    /// Stop the loop, for this reason.
    Halt(RenderError),
}

/// Layout of the display device: row stride in bytes, rows, bytes per pixel.
#[derive(Clone, Copy, Debug, PartialEq, Eq, Structural)]
pub struct Geometry {
    pub width: u32,
    pub height: u32,
    pub bytes_per_pixel: u32,
}

/// What was loaded for a `Start`: the explicit offsets, if any, and the image,
/// if it could be opened.
pub struct Scene {
    pub xoffset: Option<u32>,
    pub yoffset: Option<u32>,
    pub image: Option<bmp::Image>,
}

/// The state of the render loop, which owns the current frame.
pub struct Renderer {
    geometry: Geometry,
    phase: Phase,
    mode: Mode,
    feedback: Option<Feedback>,
    frame: Option<Frame>,
}

/// The mathematical content of a `Renderer`.
pub ghost struct RendererView {
    pub geometry: Geometry,
    pub phase: Phase,
    pub mode: Mode,
    pub feedback: Option<Feedback>,
    pub frame: Option<FrameView>,
}

impl View for Renderer {
    type V = RendererView;

    closed spec fn view(&self) -> RendererView {
        RendererView {
            geometry: self.geometry,
            phase: self.phase,
            mode: self.mode,
            feedback: self.feedback,
            frame: match self.frame {
                Some(f) => Some(f@),
                None => None,
            },
        }
    }
}

/// The console mode after `actions` are carried out from mode `m`.
pub open spec fn mode_after(m: Mode, actions: Seq<Action>) -> Mode
    decreases actions.len(),
{
    if actions.len() == 0 {
        m
    } else {
        match actions.last() {
            Action::SetMode(x) => x,
            _ => mode_after(m, actions.drop_last()),
        }
    }
}

/// The actions may end the loop.
pub open spec fn halts(actions: Seq<Action>) -> bool {
    exists|i: int| 0 <= i < actions.len() && actions[i] is Halt
}

/// What ends the loop on a fatal error: back to text mode where graphics was
/// set, then halt.
pub open spec fn exit_actions(m: Mode, e: RenderError) -> Seq<Action> {
    if m == Mode::Graphics {
        seq![Action::SetMode(Mode::Text), Action::Halt(e)]
    } else {
        seq![Action::Halt(e)]
    }
}

/// The feedback step that a command leads to while showing, if any.
pub open spec fn feedback_for(msg: Msg) -> Option<Feedback> {
    match msg {
        Msg::KeyPressed(Key::Enter) => Some(Feedback::Validating),
        Msg::KeyPressed(Key::Char(_)) => Some(Feedback::Typing),
        Msg::KeyPressed(Key::Escape) => Some(Feedback::Cleared),
        Msg::Success => Some(Feedback::Succeeded),
        Msg::Fail => Some(Feedback::Failed),
        _ => None,
    }
}

/// The empty frame that a `Start` creates from the device geometry.
pub open spec fn fresh_frame(g: Geometry, xoffset: Option<u32>, yoffset: Option<u32>) -> FrameView {
    FrameView {
        buffer: Seq::new((g.width * g.height) as nat, |i: int| 0u8),
        xoffset,
        yoffset,
        width: g.width,
        height: g.height,
        bytes_per_pixel: g.bytes_per_pixel,
    }
}

/// The reason a refused drawing ends the loop.
pub open spec fn render_error(e: FrameError) -> RenderError {
    match e {
        FrameError::OutOfBoundsWrite => RenderError::OutOfBoundsWrite,
        FrameError::ImageTooLarge => RenderError::ImageTooLarge,
    }
}

/// `s` is `o` after a fatal error `e`.
pub open spec fn halted_by(o: RendererView, s: RendererView, actions: Seq<Action>, e: RenderError) -> bool {
    &&& actions == exit_actions(o.mode, e)
    &&& s == RendererView { phase: Phase::Halted, mode: Mode::Text, ..o }
}

/// What a `Start` with this scene does to `o`.
pub open spec fn started(o: RendererView, scene: Option<Scene>, s: RendererView, actions: Seq<Action>) -> bool {
    match scene {
        None => halted_by(o, s, actions, RenderError::ImageUnavailable),
        Some(sc) => match sc.image {
            None => halted_by(o, s, actions, RenderError::ImageUnavailable),
            Some(img) => {
                let f = fresh_frame(o.geometry, sc.xoffset, sc.yoffset);
                match drawn_image(f, image_width(img) as int, image_height(img) as int, image_pixels(img)) {
                    Ok(buf) => {
                        &&& actions == seq![Action::SetMode(Mode::Graphics), Action::Present]
                        &&& s == RendererView {
                            phase: Phase::Showing,
                            mode: Mode::Graphics,
                            feedback: None,
                            frame: Some(FrameView { buffer: buf, ..f }),
                            ..o
                        }
                    },
                    Err(e) => halted_by(o, s, actions, render_error(e)),
                }
            },
        },
    }
}

/// What command `msg` does to `o`, giving `s` and `actions`.
pub open spec fn stepped(o: RendererView, msg: Msg, scene: Option<Scene>, s: RendererView, actions: Seq<Action>) -> bool {
    if o.phase == Phase::Halted {
        actions.len() == 0 && s == o
    } else {
        match msg {
            Msg::Start => started(o, scene, s, actions),
            Msg::Stop => {
                &&& actions == seq![Action::SetMode(Mode::Text)]
                &&& s == RendererView { phase: Phase::Idle, mode: Mode::Text, feedback: None, ..o }
            },
            _ => {
                &&& actions.len() == 0
                &&& s == RendererView {
                    feedback: if o.phase == Phase::Showing && feedback_for(msg) is Some {
                        feedback_for(msg)
                    } else {
                        o.feedback
                    },
                    ..o
                }
            },
        }
    }
}

proof fn lemma_exit_actions(m: Mode, e: RenderError)
    ensures
        mode_after(m, exit_actions(m, e)) == Mode::Text,
        halts(exit_actions(m, e)),
{
    let a = exit_actions(m, e);
    if m == Mode::Graphics {
        assert(a.drop_last() =~= seq![Action::SetMode(Mode::Text)]);
        assert(mode_after(m, a.drop_last()) == Mode::Text);
        assert(a[1] is Halt);
    } else {
        assert(a.drop_last() =~= Seq::<Action>::empty());
        assert(a[0] is Halt);
    }
}

/// A key other than Enter, a character or Escape changes nothing: no action, and
/// the state, its frame included, stays as it was.
pub proof fn lemma_other_key_is_noop(o: RendererView, k: Key, scene: Option<Scene>, s: RendererView, actions: Seq<Action>)
    requires
        stepped(o, Msg::KeyPressed(k), scene, s, actions),
        !(k is Enter || k is Char || k is Escape),
    ensures
        actions.len() == 0,
        s == o,
{
}

/// A `Start` whose image fits switches the console to graphics and then
/// presents a fresh frame: every byte of it outside the image's three-byte color
/// windows is zero.
pub proof fn lemma_start_presents_fresh_frame(
    o: RendererView,
    sc: Scene,
    img: bmp::Image,
    s: RendererView,
    actions: Seq<Action>,
    j: int,
)
    requires
        o.phase != Phase::Halted,
        sc.image == Some(img),
        stepped(o, Msg::Start, Some(sc), s, actions),
        drawn_image(
            fresh_frame(o.geometry, sc.xoffset, sc.yoffset),
            image_width(img) as int,
            image_height(img) as int,
            image_pixels(img),
        ) is Ok,
        0 <= j < o.geometry.width * o.geometry.height,
        outside_image(
            j,
            o.geometry.width as int,
            o.geometry.bytes_per_pixel as int,
            image_width(img) as int,
            image_height(img) as int,
            placed_x(fresh_frame(o.geometry, sc.xoffset, sc.yoffset), image_width(img) as int)->Some_0,
            placed_y(fresh_frame(o.geometry, sc.xoffset, sc.yoffset), image_height(img) as int)->Some_0,
        ),
    ensures
        actions == seq![Action::SetMode(Mode::Graphics), Action::Present],
        s.mode == Mode::Graphics,
        s.phase == Phase::Showing,
        s.frame is Some,
        s.frame->Some_0.buffer.len() == o.geometry.width * o.geometry.height,
        s.frame->Some_0.buffer[j] == 0,
{
    let f = fresh_frame(o.geometry, sc.xoffset, sc.yoffset);
    lemma_image_outside_unchanged(f, image_width(img) as int, image_height(img) as int, image_pixels(img), j);
}

proof fn lemma_mode_after_shapes(m: Mode)
    ensures
        mode_after(m, seq![Action::SetMode(Mode::Graphics), Action::Present]) == Mode::Graphics,
        mode_after(m, seq![Action::SetMode(Mode::Text)]) == Mode::Text,
        mode_after(m, Seq::<Action>::empty()) == m,
        !halts(seq![Action::SetMode(Mode::Graphics), Action::Present]),
        !halts(seq![Action::SetMode(Mode::Text)]),
        !halts(Seq::<Action>::empty()),
{
    let a = seq![Action::SetMode(Mode::Graphics), Action::Present];
    assert(a.drop_last() =~= seq![Action::SetMode(Mode::Graphics)]);
    assert(mode_after(m, a.drop_last()) == Mode::Graphics);
}

impl Renderer {
    /// The geometry allows a frame buffer in memory.
    pub open spec fn wf(&self) -> bool {
        &&& self@.geometry.width * self@.geometry.height <= usize::MAX
        &&& self@.phase == Phase::Halted ==> self@.mode == Mode::Text
        &&& match self@.frame {
            Some(f) => f.buffer.len() == f.width * f.height,
            None => true,
        }
    }

    /// An idle loop for a device of this geometry, in text mode, with no frame.
    pub fn new(geometry: Geometry) -> (r: Self)
        requires
            geometry.width * geometry.height <= usize::MAX,
        ensures
            r.wf(),
            r@ == (RendererView {
                geometry,
                phase: Phase::Idle,
                mode: Mode::Text,
                feedback: None,
                frame: None,
            }),
    {
        Renderer { geometry, phase: Phase::Idle, mode: Mode::Text, feedback: None, frame: None }
    }

    pub fn phase(&self) -> (r: Phase)
        ensures
            r == self@.phase,
    {
        self.phase
    }

    /// The console mode the device is in once the actions handed out so far are done.
    pub fn mode(&self) -> (r: Mode)
        ensures
            r == self@.mode,
    {
        self.mode
    }

    pub fn feedback(&self) -> (r: Option<Feedback>)
        ensures
            r == self@.feedback,
    {
        self.feedback
    }

    /// The current frame, whose bytes a `Present` copies to the device.
    pub fn frame(&self) -> (r: Option<&Frame>)
        ensures
            match r {
                Some(f) => self@.frame == Some(f@),
                None => self@.frame is None,
            },
    {
        match &self.frame {
            Some(f) => Some(f),
            None => None,
        }
    }

    fn halt(&mut self, e: RenderError) -> (actions: Vec<Action>)
        ensures
            halted_by(old(self)@, final(self)@, actions@, e),
            final(self).frame == old(self).frame,
    {
        let mut actions: Vec<Action> = Vec::new();
        if self.mode == Mode::Graphics {
            actions.push(Action::SetMode(Mode::Text));
        }
        actions.push(Action::Halt(e));
        self.phase = Phase::Halted;
        self.mode = Mode::Text;
        proof {
            assert(actions@ =~= exit_actions(old(self)@.mode, e));
        }
        actions
    }

    fn start(&mut self, scene: Option<Scene>) -> (actions: Vec<Action>)
        requires
            old(self).wf(),
            old(self)@.phase != Phase::Halted,
        ensures
            final(self).wf(),
            started(old(self)@, scene, final(self)@, actions@),
    {
        let sc = match scene {
            Some(sc) => sc,
            None => return self.halt(RenderError::ImageUnavailable),
        };
        let img = match &sc.image {
            Some(img) => img,
            None => return self.halt(RenderError::ImageUnavailable),
        };
        let g = self.geometry;
        let mut frame = Frame::new(sc.xoffset, sc.yoffset, g.width, g.height, g.bytes_per_pixel);
        match frame.draw_image(img) {
            Ok(()) => {
                self.frame = Some(frame);
                self.phase = Phase::Showing;
                self.mode = Mode::Graphics;
                self.feedback = None;
                let actions = vec![Action::SetMode(Mode::Graphics), Action::Present];
                proof {
                    assert(actions@ =~= seq![Action::SetMode(Mode::Graphics), Action::Present]);
                }
                actions
            },
            Err(FrameError::OutOfBoundsWrite) => self.halt(RenderError::OutOfBoundsWrite),
            Err(FrameError::ImageTooLarge) => self.halt(RenderError::ImageTooLarge),
        }
    }

    fn stop(&mut self) -> (actions: Vec<Action>)
        ensures
            actions@ == seq![Action::SetMode(Mode::Text)],
            final(self)@ == (RendererView { phase: Phase::Idle, mode: Mode::Text, feedback: None, ..old(self)@ }),
            final(self).frame == old(self).frame,
    {
        self.phase = Phase::Idle;
        self.mode = Mode::Text;
        self.feedback = None;
        let actions = vec![Action::SetMode(Mode::Text)];
        proof {
            assert(actions@ =~= seq![Action::SetMode(Mode::Text)]);
        }
        actions
    }

    /// Feedback once the entered password is handed over for checking.
    fn draw_pass_validate(&mut self)
        ensures
            final(self)@ == (RendererView { feedback: Some(Feedback::Validating), ..old(self)@ }),
            final(self).frame == old(self).frame,
    {
        self.feedback = Some(Feedback::Validating);
    }

    /// Feedback for one more typed character.
    fn draw_pass_type(&mut self)
        ensures
            final(self)@ == (RendererView { feedback: Some(Feedback::Typing), ..old(self)@ }),
            final(self).frame == old(self).frame,
    {
        self.feedback = Some(Feedback::Typing);
    }

    /// Feedback for a cleared entry.
    fn draw_pass_clear(&mut self)
        ensures
            final(self)@ == (RendererView { feedback: Some(Feedback::Cleared), ..old(self)@ }),
            final(self).frame == old(self).frame,
    {
        self.feedback = Some(Feedback::Cleared);
    }

    /// Feedback for an accepted password.
    fn draw_pass_success(&mut self)
        ensures
            final(self)@ == (RendererView { feedback: Some(Feedback::Succeeded), ..old(self)@ }),
            final(self).frame == old(self).frame,
    {
        self.feedback = Some(Feedback::Succeeded);
    }

    /// Feedback for a rejected password.
    fn draw_pass_fail(&mut self)
        ensures
            final(self)@ == (RendererView { feedback: Some(Feedback::Failed), ..old(self)@ }),
            final(self).frame == old(self).frame,
    {
        self.feedback = Some(Feedback::Failed);
    }

    /// Applies one command. `scene` is what was loaded for a `Start` and is not
    /// read for other commands. The returned actions are to be carried out in
    /// order; the renderer's mode is the console mode they leave, and a `Stop`
    /// or a fatal error always leaves text mode.
    pub fn handle(&mut self, msg: Msg, scene: Option<Scene>) -> (actions: Vec<Action>)
        requires
            old(self).wf(),
        ensures
            final(self).wf(),
            stepped(old(self)@, msg, scene, final(self)@, actions@),
            mode_after(old(self)@.mode, actions@) == final(self)@.mode,
            (msg == Msg::Stop || halts(actions@)) ==> final(self)@.mode == Mode::Text,
    {
        if self.phase == Phase::Halted {
            proof {
                lemma_mode_after_shapes(old(self)@.mode);
            }
            return Vec::new();
        }
        let actions = match msg {
            Msg::Start => self.start(scene),
            Msg::Stop => self.stop(),
            _ => {
                if self.phase == Phase::Showing {
                    match msg {
                        Msg::KeyPressed(Key::Enter) => self.draw_pass_validate(),
                        Msg::KeyPressed(Key::Char(_)) => self.draw_pass_type(),
                        Msg::KeyPressed(Key::Escape) => self.draw_pass_clear(),
                        Msg::Success => self.draw_pass_success(),
                        Msg::Fail => self.draw_pass_fail(),
                        _ => {},
                    }
                }
                Vec::new()
            },
        };
        proof {
            lemma_mode_after_shapes(old(self)@.mode);
            lemma_exit_actions(old(self)@.mode, RenderError::ImageUnavailable);
            lemma_exit_actions(old(self)@.mode, RenderError::OutOfBoundsWrite);
            lemma_exit_actions(old(self)@.mode, RenderError::ImageTooLarge);
        }
        actions
    }

    /// Ends the loop after a device operation failed: back to text mode where
    /// graphics was set, then halt.
    pub fn abort(&mut self) -> (actions: Vec<Action>)
        requires
            old(self).wf(),
        ensures
            final(self).wf(),
            halted_by(old(self)@, final(self)@, actions@, RenderError::DeviceFault),
            mode_after(old(self)@.mode, actions@) == final(self)@.mode,
            final(self)@.mode == Mode::Text,
    {
        let actions = self.halt(RenderError::DeviceFault);
        proof {
            lemma_exit_actions(old(self)@.mode, RenderError::DeviceFault);
        }
        actions
    }
}

} // verus!
