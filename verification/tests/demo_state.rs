use showcase::charset::distinct_chars;
use showcase::demo::{frame_action, FontChoice, FrameAction, SurfaceStatus, TextDemoState};
use showcase::window::{on_resumed, on_window_event, EventAction, ResumeAction, WindowEventKind};

#[test]
fn demo_starts_with_sans_font() {
    let s = TextDemoState::new();
    assert_eq!(s.font_index(), 0);
    assert_eq!(s.current_font(), FontChoice::Sans);
    assert!(!s.lmb_pressed());
}

#[test]
fn cycling_alternates_fonts() {
    let mut s = TextDemoState::new();
    s.cycle_font();
    assert_eq!(s.font_index(), 1);
    assert_eq!(s.current_font(), FontChoice::Medieval);
    s.cycle_font();
    assert_eq!(s.font_index(), 0);
    assert_eq!(s.current_font(), FontChoice::Sans);
    for _ in 0..101 {
        s.cycle_font();
        assert!(s.font_index() < 2);
    }
    assert_eq!(s.current_font(), FontChoice::Medieval);
}

#[test]
fn only_left_button_is_tracked() {
    let mut s = TextDemoState::new();
    s.handle_mouse_button(0, true);
    assert!(s.lmb_pressed());
    s.handle_mouse_button(1, false);
    assert!(s.lmb_pressed());
    s.handle_mouse_button(0, false);
    assert!(!s.lmb_pressed());
    assert_eq!(s.font_index(), 0);
}

#[test]
fn frame_actions_for_every_status() {
    assert_eq!(frame_action(SurfaceStatus::Success), FrameAction::Draw);
    assert_eq!(frame_action(SurfaceStatus::Suboptimal), FrameAction::ReconfigureThenDraw);
    assert_eq!(frame_action(SurfaceStatus::Timeout), FrameAction::Skip);
    assert_eq!(frame_action(SurfaceStatus::Occluded), FrameAction::Skip);
    assert_eq!(frame_action(SurfaceStatus::Validation), FrameAction::Skip);
    assert_eq!(frame_action(SurfaceStatus::Outdated), FrameAction::ReconfigureThenSkip);
    assert_eq!(frame_action(SurfaceStatus::Lost), FrameAction::SurfaceLost);
}

#[test]
fn window_is_created_once() {
    assert_eq!(on_resumed(false), ResumeAction::CreateWindow);
    assert_eq!(on_resumed(true), ResumeAction::KeepWindow);
}

#[test]
fn close_request_exits() {
    assert_eq!(on_window_event(WindowEventKind::CloseRequested), EventAction::Exit);
    assert_eq!(on_window_event(WindowEventKind::Other), EventAction::Ignore);
}

#[test]
fn distinct_chars_keeps_first_occurrences() {
    let text: Vec<char> = "hello, world".chars().collect();
    let chars = distinct_chars(&text);
    assert_eq!(chars, vec!['h', 'e', 'l', 'o', ',', ' ', 'w', 'r', 'd']);
    assert!(distinct_chars(&Vec::new()).is_empty());
}

#[test]
fn distinct_chars_of_unicode_text() {
    let text: Vec<char> = "ÄäÄ€€x".chars().collect();
    assert_eq!(distinct_chars(&text), vec!['Ä', 'ä', '€', 'x']);
}
