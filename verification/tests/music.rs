use server_rs::config::{Config, MusicConfig};
use server_rs::music::{from_config, MockProvider, MusicProvider, Provider, TONE_URL};
use server_rs::settings_derive::SettingsStruct;

#[test]
fn mock_track_has_the_test_tone_metadata() {
    let t = MockProvider::track("mock-3");
    assert_eq!(t.id, "mock-3");
    assert_eq!(t.title, "Penumbra Test Tone (mock-3)");
    assert_eq!(t.artist, "Penumbra");
    assert_eq!(t.album, "Shim Mock");
    assert_eq!(t.duration_ms, 20_000);
}

#[test]
fn mock_queue_is_capped_at_six() {
    let p = MockProvider;
    assert!(p.queue(0).is_empty());
    let ids: Vec<String> = p.queue(3).into_iter().map(|t| t.id).collect();
    assert_eq!(ids, ["mock-1", "mock-2", "mock-3"]);
    let ids: Vec<String> = p.queue(10).into_iter().map(|t| t.id).collect();
    assert_eq!(ids, ["mock-1", "mock-2", "mock-3", "mock-4", "mock-5", "mock-6"]);
    assert_eq!(p.queue(6).len(), 6);
}

#[test]
fn mock_answers() {
    let p = MockProvider;
    assert_eq!(p.name(), "mock");
    assert_eq!(p.search_top("anything").unwrap().id, "mock-1");
    assert_eq!(p.track("xyz").title, "Penumbra Test Tone (xyz)");
    let recs: Vec<String> = p.recommendations("mock-2", 2).into_iter().map(|t| t.id).collect();
    assert_eq!(recs, ["mock-1", "mock-2"]);
    assert_eq!(p.playback("mock-1"), TONE_URL);
    assert_eq!(p.playback("other"), "http://127.0.0.1:8080/tidal-shim/audio/tone.wav");
}

fn config_with_provider(name: &str) -> Config {
    let empty = || SettingsStruct::new(Vec::new()).unwrap();
    Config {
        server: empty(),
        llm: empty(),
        weather: empty(),
        contacts: empty(),
        dev: empty(),
        music: MusicConfig { provider: name.to_string() },
    }
}

#[test]
fn from_config_selects_mock() {
    let s = from_config(&config_with_provider("mock"));
    assert!(!s.unknown);
    assert!(matches!(s.provider, Provider::Mock(_)));
    assert_eq!(s.provider.name(), "mock");
}

#[test]
fn unknown_provider_falls_back_to_mock() {
    let s = from_config(&config_with_provider("tidal"));
    assert!(s.unknown);
    assert!(matches!(s.provider, Provider::Mock(_)));
    assert_eq!(s.provider.queue(2).len(), 2);
}
