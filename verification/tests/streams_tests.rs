use vsd::playlist::{Bandwidth, ByteSize, Float32, MasterPlaylist, MediaPlaylist, MediaType, PlaylistType};
use vsd::selection::{prompt_mode, PromptMode, answer_summary, default_video_index, numbered_listing, numbers_from_input, MenuEntry, Quality};

fn size(value: &str, unit: &str) -> ByteSize {
    ByteSize { value: value.to_string(), unit: unit.to_string(), text: format!("{} {}", value, unit) }
}

fn stream(kind: MediaType, uri: &str) -> MediaPlaylist {
    let mut m = MediaPlaylist::default();
    m.media_type = kind;
    m.uri = uri.to_string();
    m
}

fn video(uri: &str, w: u64, h: u64, bw: u64) -> MediaPlaylist {
    let mut m = stream(MediaType::Video, uri);
    m.resolution = Some((w, h));
    m.bandwidth = Some(Bandwidth { value: bw, size: size(&bw.to_string(), "B") });
    m
}

fn audio(uri: &str, lang: Option<&str>, channels: Option<f32>, bw: Option<u64>) -> MediaPlaylist {
    let mut m = stream(MediaType::Audio, uri);
    m.language = lang.map(|l| l.to_string());
    m.channels = channels.map(|c| Float32 { bits: c.to_bits(), text: c.to_string() });
    m.bandwidth = bw.map(|b| Bandwidth { value: b, size: size(&b.to_string(), "B") });
    m
}

fn subtitle(uri: &str, lang: Option<&str>) -> MediaPlaylist {
    let mut m = stream(MediaType::Subtitles, uri);
    m.language = lang.map(|l| l.to_string());
    m
}

fn master(streams: Vec<MediaPlaylist>) -> MasterPlaylist {
    MasterPlaylist { playlist_type: PlaylistType::Hls, uri: "master.m3u8".to_string(), streams }
}

fn uris(streams: &[MediaPlaylist]) -> Vec<&str> {
    streams.iter().map(|s| s.uri.as_str()).collect()
}

#[test]
fn sorting_groups_and_orders_streams() {
    let m = master(vec![
        stream(MediaType::Undefined, "u1"),
        subtitle("s-fr", Some("fr")),
        video("v-720-low", 1280, 720, 1000),
        audio("a-de", Some("de"), Some(2.0), Some(100)),
        video("v-1080", 1920, 1080, 500),
        audio("a-en-gb", Some("EN-GB"), Some(6.0), Some(50)),
        video("v-720-high", 1280, 720, 3000),
        audio("a-en", Some("en"), Some(2.0), Some(10)),
        subtitle("s-en", Some("EN")),
        stream(MediaType::Undefined, "u2"),
        audio("a-none", None, None, None),
        video("v-unknown", 0, 0, 9999),
    ]);
    assert!(m.pixel_counts_fit());
    let sorted = m.sort_streams(Some("En".to_string()), Some("en-US".to_string()));
    assert_eq!(
        uris(&sorted.streams),
        vec![
            "v-1080", "v-720-high", "v-720-low", "v-unknown",
            "a-en", "a-en-gb", "a-de", "a-none",
            "s-en", "s-fr",
            "u1", "u2",
        ]
    );
    assert_eq!(sorted.uri, "master.m3u8");
}

#[test]
fn sorting_without_preferences_keeps_ties_in_order() {
    let m = master(vec![
        audio("a1", Some("en"), None, None),
        audio("a2", Some("fr"), Some(2.0), None),
        audio("a3", Some("de"), None, Some(5)),
        audio("a4", Some("es"), Some(-0.0), None),
        subtitle("s1", Some("en")),
        subtitle("s2", Some("fr")),
    ]);
    let sorted = m.sort_streams(None, None);
    assert_eq!(uris(&sorted.streams), vec!["a2", "a3", "a1", "a4", "s1", "s2"]);
}

#[test]
fn language_prefix_match_ranks_between() {
    let m = master(vec![
        audio("x", Some("ja"), None, None),
        audio("partial", Some("pt-PT"), None, None),
        audio("exact", Some("PT-br"), None, None),
    ]);
    let sorted = m.sort_streams(Some("pt-BR".to_string()), None);
    assert_eq!(uris(&sorted.streams), vec!["exact", "partial", "x"]);
}

#[test]
fn pixel_overflow_is_detected() {
    let m = master(vec![video("huge", u64::MAX, 2, 0)]);
    assert!(!m.pixel_counts_fit());
    let n = master(vec![audio("a", None, None, None)]);
    assert!(n.pixel_counts_fit());
}

#[test]
fn default_video_choice() {
    let vs = vec![video("a", 1920, 1080, 1), video("b", 1280, 720, 1), video("c", 640, 360, 1)];
    assert_eq!(default_video_index(&vs, Quality::Highest), Some(0));
    assert_eq!(default_video_index(&vs, Quality::Lowest), Some(2));
    assert_eq!(default_video_index(&vs, Quality::Youtube720p), Some(1));
    assert_eq!(default_video_index(&vs, Quality::Youtube360p), Some(2));
    assert_eq!(default_video_index(&vs, Quality::Resolution(1920, 1080)), Some(0));
    assert_eq!(default_video_index(&vs, Quality::Youtube4k), None);
    assert_eq!(default_video_index(&vec![], Quality::Highest), Some(0));
}

fn sample() -> MasterPlaylist {
    master(vec![
        video("v0", 1920, 1080, 2),
        stream(MediaType::Undefined, "u"),
        video("v1", 1280, 720, 1),
        audio("a0", Some("en"), None, None),
        audio("a1", Some("fr"), None, None),
        subtitle("s0", Some("en")),
    ])
}

#[test]
fn numbered_menu_and_defaults() {
    let m = sample();
    assert!(m.menu_possible(Quality::Youtube720p));
    let menu = m.stream_menu(Quality::Youtube720p, true).unwrap();
    assert_eq!(menu.default_video, 1);
    assert_eq!((menu.ranges.video.start, menu.ranges.video.end), (1, 3));
    assert_eq!((menu.ranges.audio.start, menu.ranges.audio.end), (3, 5));
    assert_eq!((menu.ranges.subtitles.start, menu.ranges.subtitles.end), (5, 6));
    assert_eq!(menu.entries.len(), 8);
    match &menu.entries[0] {
        MenuEntry::Separator(t) => assert_eq!(t, "─────── Video Streams ────────"),
        _ => panic!("expected a heading"),
    }
    let (lines, defaults) = numbered_listing(&menu.entries);
    assert_eq!(defaults, vec![2, 3, 5]);
    assert_eq!(lines[0], "------- Video Streams --------");
    assert_eq!(lines[1], " 1) [ ] 1080p           2 B/s (codecs: ?)");
    assert_eq!(lines[2], " 2) [x] 720p            1 B/s (codecs: ?)");
    assert_eq!(lines[3], "------- Audio Streams --------");
    assert_eq!(lines[4], " 3) [x] language: en");
    assert_eq!(lines[5], " 4) [ ] language: fr");
    assert_eq!(lines[6], "------ Subtitle Streams ------");
    assert_eq!(lines[7], " 5) [x] language: en");
    let numbers = numbers_from_input(" \n", defaults);
    assert_eq!(numbers, vec![2, 3, 5]);
    assert!(menu.can_pick(&numbers));
    let picked = menu.pick(&numbers);
    assert_eq!(uris(&picked.streams), vec!["v1", "a0"]);
    assert_eq!(uris(&picked.subtitles), vec!["s0"]);
    assert_eq!(picked.announcements, vec!["720p 1 B/s (codecs: ?)", "language: en", "language: en"]);
}

#[test]
fn typed_answers() {
    assert_eq!(numbers_from_input("1, 4 ,x,, +5\n", vec![9]), vec![1, 4, 5]);
    assert_eq!(numbers_from_input("\t\n", vec![9]), vec![9]);
    assert_eq!(numbers_from_input("-1", vec![9]), Vec::<usize>::new());
    let menu = sample().stream_menu(Quality::Highest, true).unwrap();
    let numbers = numbers_from_input("1,4,5", vec![]);
    let picked = menu.pick(&numbers);
    assert_eq!(uris(&picked.streams), vec!["v0", "a1"]);
    assert_eq!(uris(&picked.subtitles), vec!["s0"]);
}

#[test]
fn out_of_order_answers() {
    let menu = sample().stream_menu(Quality::Highest, true).unwrap();
    assert!(!menu.can_pick(&vec![1, 1]));
    assert!(!menu.can_pick(&vec![2, 1]));
    assert!(menu.can_pick(&vec![2, 2]));
    let picked = menu.pick(&vec![2, 2, 9]);
    assert_eq!(uris(&picked.streams), vec!["v1", "v0"]);
    assert!(picked.subtitles.is_empty());
}

#[test]
fn listed_menu_numbers_count_headings() {
    let menu = sample().stream_menu(Quality::Lowest, false).unwrap();
    assert_eq!(menu.default_video, 1);
    assert_eq!((menu.ranges.audio.start, menu.ranges.audio.end), (4, 6));
    assert_eq!((menu.ranges.subtitles.start, menu.ranges.subtitles.end), (7, 8));
    let picked = menu.pick(&vec![2, 5, 7]);
    assert_eq!(uris(&picked.streams), vec!["v1", "a1"]);
    assert_eq!(uris(&picked.subtitles), vec!["s0"]);
}

#[test]
fn missing_quality_gives_no_menu() {
    let m = sample();
    assert!(m.stream_menu(Quality::Youtube8k, true).is_none());
    let no_video = master(vec![audio("a", None, None, None)]);
    assert!(!no_video.menu_possible(Quality::Lowest));
    assert!(no_video.menu_possible(Quality::Highest));
}

#[test]
fn answer_echo() {
    let texts = vec!["1080p   2 B/s".to_string(), " language:  en ".to_string()];
    assert_eq!(answer_summary(&texts), "1080p 2 B/s | language: en");
    assert_eq!(answer_summary(&vec![]), "");
}

#[test]
fn prompt_modes() {
    assert_eq!(prompt_mode(false, false), PromptMode::Menu);
    assert_eq!(prompt_mode(true, false), PromptMode::Listing);
    assert_eq!(prompt_mode(true, true), PromptMode::Listing);
    assert_eq!(prompt_mode(false, true), PromptMode::ListingWithQuestion);
}

#[test]
fn pickable_prefix_of_answers() {
    let menu = sample().stream_menu(Quality::Highest, true).unwrap();
    assert_eq!(menu.pickable_count(&vec![2, 3, 1]), 2);
    assert_eq!(menu.pickable_count(&vec![1, 1]), 1);
    assert_eq!(menu.pickable_count(&vec![2, 2, 9]), 3);
    assert_eq!(menu.pickable_count(&vec![]), 0);
    assert_eq!(menu.pickable_count(&vec![5, 5]), 1);
    let picked = menu.pick(&vec![2, 3]);
    assert_eq!(uris(&picked.streams), vec!["v1", "a0"]);
}

fn unsorted_videos() -> MasterPlaylist {
    master(vec![
        video("mid", 1280, 720, 800),
        audio("a", Some("en"), None, None),
        video("small", 640, 360, 5000),
        video("big-low", 1920, 1080, 100),
        video("big-high", 1920, 1080, 900),
        video("mid-high", 1280, 720, 2000),
    ])
}

#[test]
fn sorted_defaults_take_best_and_worst_video() {
    let best = unsorted_videos().sort_streams(None, None);
    let menu = best.stream_menu(Quality::Highest, true).unwrap();
    let (_, defaults) = numbered_listing(&menu.entries);
    let picked = menu.pick(&defaults);
    assert_eq!(uris(&picked.streams), vec!["big-high", "a"]);

    let worst = unsorted_videos().sort_streams(None, None);
    let menu = worst.stream_menu(Quality::Lowest, true).unwrap();
    let (_, defaults) = numbered_listing(&menu.entries);
    let picked = menu.pick(&defaults);
    assert_eq!(uris(&picked.streams), vec!["small", "a"]);
}

fn mixed_case_languages() -> MasterPlaylist {
    master(vec![
        audio("a-en", Some("en"), None, Some(10)),
        audio("a-fr-ca", Some("fr-CA"), None, Some(10)),
        audio("a-fr", Some("Fr"), None, Some(10)),
        subtitle("s-en", Some("EN")),
        subtitle("s-fr", Some("FR")),
    ])
}

#[test]
fn language_preference_ignores_ascii_case() {
    let upper = mixed_case_languages().sort_streams(Some("FR".to_string()), Some("fR".to_string()));
    let lower = mixed_case_languages().sort_streams(Some("fr".to_string()), Some("fr".to_string()));
    assert_eq!(uris(&upper.streams), vec!["a-fr", "a-fr-ca", "a-en", "s-fr", "s-en"]);
    assert_eq!(uris(&upper.streams), uris(&lower.streams));
}

#[test]
fn non_ascii_preference_ignores_ascii_case() {
    let streams = || {
        master(vec![
            audio("a-de", Some("de"), None, Some(10)),
            audio("a-fra", Some("FRÄ"), None, Some(10)),
            audio("a-frx", Some("frx"), None, Some(10)),
        ])
    };
    let one = streams().sort_streams(Some("Frä".to_string()), None);
    let two = streams().sort_streams(Some("fRä".to_string()), None);
    assert_eq!(uris(&one.streams), vec!["a-fra", "a-frx", "a-de"]);
    assert_eq!(uris(&one.streams), uris(&two.streams));
}
