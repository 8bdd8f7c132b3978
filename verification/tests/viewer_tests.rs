use folio_core::sorting::text_le_exec;
use folio_core::tts::{choose_backend, find_voice, sort_voices, voice_files, TtsBackend, VoiceChoice, VoiceInfo};
use folio_core::viewer::{
    handle_viewer_message, quarter_turns, ViewerAction, ViewerMessage, ViewerState, ViewerTheme,
};

#[test]
fn theme_keys_round_trip() {
    assert_eq!(ViewerTheme::Light.key(), "light");
    assert_eq!(ViewerTheme::Dark.key(), "dark");
    assert_eq!(ViewerTheme::from_key("light"), ViewerTheme::Light);
    assert_eq!(ViewerTheme::from_key("dark"), ViewerTheme::Dark);
    assert_eq!(ViewerTheme::from_key("sepia"), ViewerTheme::Dark);
    assert_eq!(ViewerTheme::from_key(ViewerTheme::Light.key()), ViewerTheme::Light);
}

#[test]
fn rotations_wrap_within_a_full_turn() {
    let mut s = ViewerState::new();
    assert_eq!(s.rotation, 0);
    s.rotate_cw();
    assert_eq!(s.rotation, 90);
    s.rotate_cw();
    s.rotate_cw();
    s.rotate_cw();
    assert_eq!(s.rotation, 0);
    s.rotate_ccw();
    assert_eq!(s.rotation, -90);
    assert_eq!(quarter_turns(s.rotation), 3);
    s.rotate_cw();
    assert_eq!(quarter_turns(s.rotation), 0);
    assert_eq!(quarter_turns(-270), 1);
    assert_eq!(quarter_turns(180), 2);
    assert_eq!(quarter_turns(45), 0);
}

#[test]
fn viewer_messages_change_state_and_ask_for_actions() {
    let mut s = ViewerState::new();
    let mut dropdown = false;
    assert_eq!(handle_viewer_message(&mut s, &mut dropdown, ViewerMessage::ToggleSaveDropdown), ViewerAction::Nothing);
    assert!(dropdown);
    assert_eq!(handle_viewer_message(&mut s, &mut dropdown, ViewerMessage::FlipH), ViewerAction::Redraw);
    assert!(s.flip_h);
    assert_eq!(handle_viewer_message(&mut s, &mut dropdown, ViewerMessage::FlipH), ViewerAction::Redraw);
    assert!(!s.flip_h);
    assert_eq!(handle_viewer_message(&mut s, &mut dropdown, ViewerMessage::SetTheme(ViewerTheme::Light)), ViewerAction::Nothing);
    assert_eq!(s.theme, ViewerTheme::Light);
    assert_eq!(
        handle_viewer_message(&mut s, &mut dropdown, ViewerMessage::SaveAs("png".to_string())),
        ViewerAction::SaveAs("png".to_string())
    );
    assert_eq!(handle_viewer_message(&mut s, &mut dropdown, ViewerMessage::RotateCCW), ViewerAction::Redraw);
    assert_eq!(s.rotation, -90);
    assert_eq!(handle_viewer_message(&mut s, &mut dropdown, ViewerMessage::Save), ViewerAction::Nothing);
    assert_eq!(handle_viewer_message(&mut s, &mut dropdown, ViewerMessage::Cancel), ViewerAction::Exit);
    s.image_loaded("/tmp/a.png".to_string(), "a.png".to_string());
    assert_eq!(s.rotation, 0);
    assert_eq!(s.title, "a.png");
    assert_eq!(s.image_path.as_deref(), Some("/tmp/a.png"));
}

#[test]
fn speech_backend_prefers_piper_with_voices() {
    assert_eq!(choose_backend(true, 2, true, true, true), TtsBackend::Piper);
    assert_eq!(choose_backend(true, 0, true, true, true), TtsBackend::EspeakNg);
    assert_eq!(choose_backend(false, 3, false, true, true), TtsBackend::SpdSay);
    assert_eq!(choose_backend(false, 0, false, false, true), TtsBackend::Espeak);
    assert_eq!(choose_backend(false, 0, false, false, false), TtsBackend::Unavailable);
}

#[test]
fn voice_files_follow_the_config_name() {
    assert_eq!(
        voice_files("es_ES-davefx-medium.onnx.json"),
        Some(("es_ES-davefx-medium".to_string(), "es_ES-davefx-medium.onnx".to_string()))
    );
    assert_eq!(voice_files("voz.json"), Some(("voz".to_string(), "voz.onnx".to_string())));
    assert_eq!(voice_files("a.onnx.onnx.json"), Some(("a".to_string(), "a.onnx.onnx".to_string())));
    assert_eq!(voice_files("model.onnx"), None);
    assert_eq!(voice_files(".json"), None);
    assert_eq!(voice_files("README"), None);
}

fn voice(name: &str, language: &str) -> VoiceInfo {
    VoiceInfo {
        name: name.to_string(),
        language: language.to_string(),
        config_path: format!("/v/{name}.onnx.json"),
        onnx_path: format!("/v/{name}.onnx"),
    }
}

#[test]
fn voices_are_sorted_and_selected_by_name() {
    let sorted = sort_voices(vec![voice("b", "es"), voice("a", "en"), voice("b", "fr"), voice("A", "de")]);
    let names: Vec<(&str, &str)> = sorted.iter().map(|v| (v.name.as_str(), v.language.as_str())).collect();
    assert_eq!(names, vec![("A", "de"), ("a", "en"), ("b", "es"), ("b", "fr")]);

    assert_eq!(find_voice(&sorted, "b"), Some(2));
    assert_eq!(find_voice(&sorted, "zz"), None);

    let mut choice = VoiceChoice::new(sorted);
    assert_eq!(choice.selected.as_ref().map(|v| v.name.as_str()), Some("A"));
    choice.set_voice("b");
    assert_eq!(choice.selected.as_ref().map(|v| v.language.as_str()), Some("es"));
    choice.set_voice("missing");
    assert_eq!(choice.selected.as_ref().map(|v| v.language.as_str()), Some("es"));
    assert!(VoiceChoice::new(Vec::new()).selected.is_none());
}

#[test]
fn text_order_is_by_code_points() {
    assert!(text_le_exec("a", "b"));
    assert!(!text_le_exec("b", "a"));
    assert!(!text_le_exec("ab", "a"));
    assert!(text_le_exec("a", "ab"));
    assert!(text_le_exec("", "x"));
    assert!(text_le_exec("same", "same"));
    assert!(text_le_exec("Z", "a"));
    assert!(text_le_exec("z", "é"));
}

#[test]
fn pictures_are_titled_by_their_file_name() {
    assert_eq!(folio_core::viewer::picture_title("/fotos/gato.png"), "gato.png");
    assert_eq!(folio_core::viewer::picture_title("gato.png"), "gato.png");
    assert_eq!(folio_core::viewer::picture_title("/"), "Imagen");
    assert_eq!(folio_core::viewer::picture_title("fotos/.."), "Imagen");
}
