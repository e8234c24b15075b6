use vsd::playlist::{
    next_name_probe, Bandwidth, ByteRange, ByteSize, Float32, Key, KeyMethod, MediaPlaylist,
    MediaType, NameProbe, PlaylistType, Segment, SegmentMap,
};

fn size(value: &str, unit: &str) -> ByteSize {
    ByteSize {
        value: value.to_string(),
        unit: unit.to_string(),
        text: format!("{} {}", value, unit),
    }
}

fn float(bits: u32, text: &str) -> Float32 {
    Float32 { bits, text: text.to_string() }
}

fn segment(uri: &str) -> Segment {
    let mut s = Segment::default();
    s.uri = uri.to_string();
    s
}

fn key(uri: &str, kid: Option<&str>) -> Key {
    Key {
        default_kid: kid.map(|k| k.to_string()),
        iv: None,
        key_format: None,
        method: KeyMethod::Aes128,
        uri: uri.to_string(),
    }
}

#[test]
fn media_type_names() {
    assert_eq!(MediaType::Audio.as_str(), "audio");
    assert_eq!(MediaType::Subtitles.as_str(), "subtitles");
    assert_eq!(MediaType::Undefined.as_str(), "undefined");
    assert_eq!(MediaType::Video.as_str(), "video");
    assert_eq!(MediaType::default(), MediaType::Undefined);
    assert_eq!(PlaylistType::default(), PlaylistType::Hls);
}

#[test]
fn resolution_matching() {
    let mut m = MediaPlaylist::default();
    assert!(!m.has_resolution(1920, 1080));
    m.resolution = Some((1920, 1080));
    assert!(m.has_resolution(1920, 1080));
    assert!(!m.has_resolution(1080, 1920));
}

#[test]
fn hls_or_dash() {
    let mut m = MediaPlaylist::default();
    assert!(m.is_hls());
    m.playlist_type = PlaylistType::Dash;
    assert!(!m.is_hls());
}

#[test]
fn extensions() {
    let mut m = MediaPlaylist::default();
    assert_eq!(m.extension(), "ts");
    m.playlist_type = PlaylistType::Dash;
    assert_eq!(m.extension(), "m4s");
    m.segments.push(segment("seg1.m4s"));
    assert_eq!(m.extension(), "m4s");
    m.segments[0].map = Some(SegmentMap { uri: "init.mp4".to_string(), byte_range: None });
    assert_eq!(m.extension(), "mp4");
    let mut n = MediaPlaylist::default();
    n.segments.push(segment("a.mp4"));
    n.segments.push(segment("b.ts"));
    assert_eq!(n.extension(), "mp4");
    n.extension = Some("mkv".to_string());
    assert_eq!(n.extension(), "mkv");
}

#[test]
fn default_key_ids() {
    let mut m = MediaPlaylist::default();
    assert_eq!(m.default_kid(), None);
    m.segments.push(segment("a.m4s"));
    assert_eq!(m.default_kid(), None);
    m.segments[0].key = Some(key("k", None));
    assert_eq!(m.default_kid(), None);
    m.segments[0].key = Some(key("k", Some("AB12-CD34-EF")));
    assert_eq!(m.default_kid(), Some("ab12cd34ef".to_string()));
    m.segments[0].key = Some(key("k", Some("ÉCOLE-Ä")));
    assert_eq!(m.default_kid(), Some("écoleä".to_string()));
    m.segments[0].key = Some(key("k", Some("AB12-CD34-EF")));
    m.segments.push(segment("b.m4s"));
    m.segments[1].key = Some(key("k", Some("FF")));
    assert_eq!(m.default_kid(), Some("ab12cd34ef".to_string()));
}

#[test]
fn segment_ranges() {
    let mut s = segment("a.ts");
    assert_eq!(s.seg_range(10), None);
    s.byte_range = Some(ByteRange { length: 50, offset: None });
    assert_eq!(s.seg_range(100), Some(("bytes=100-149".to_string(), 149)));
    s.byte_range = Some(ByteRange { length: 50, offset: Some(0) });
    assert_eq!(s.seg_range(0), Some(("bytes=0-49".to_string(), 49)));
    s.byte_range = Some(ByteRange { length: 20, offset: Some(10) });
    assert_eq!(s.seg_range(999), Some(("bytes=20-29".to_string(), 29)));
}

#[test]
fn map_ranges() {
    let mut s = segment("a.ts");
    assert_eq!(s.map_range(5), None);
    s.map = Some(SegmentMap { uri: "init.mp4".to_string(), byte_range: None });
    assert_eq!(s.map_range(5), None);
    s.map = Some(SegmentMap {
        uri: "init.mp4".to_string(),
        byte_range: Some(ByteRange { length: 720, offset: None }),
    });
    assert_eq!(s.map_range(0), Some(("bytes=0-719".to_string(), 719)));
}

#[test]
fn range_overflow_guard() {
    let r = ByteRange { length: 0, offset: None };
    assert!(!r.fits_after(0));
    assert!(r.fits_after(1));
    let r = ByteRange { length: u64::MAX, offset: None };
    assert!(!r.fits_after(1));
    let r = ByteRange { length: u64::MAX, offset: Some(1) };
    assert!(!r.fits_after(0));
    let r = ByteRange { length: 5, offset: Some(3) };
    assert!(r.fits_after(0));
}

#[test]
fn segment_addresses() {
    let base = "https://cdn.example.com/path/index.m3u8";
    let s = segment("seg1.ts");
    assert_eq!(s.seg_url(base), Ok("https://cdn.example.com/path/seg1.ts".to_string()));
    let s = segment("HTTP://Other.Example.com/a.ts");
    assert_eq!(s.seg_url(base), Ok("http://other.example.com/a.ts".to_string()));
    let s = segment("seg1.ts");
    assert!(s.seg_url("not a url").is_err());
    let s = segment("http://Example.COM/a/../b.ts");
    assert_eq!(s.seg_url(base), Ok("http://example.com/b.ts".to_string()));
    let s = segment("http://[bad");
    assert_eq!(s.seg_url(base), Err("invalid IPv6 address".to_string()));
    let s = segment("ftp://files.example.com/x.ts");
    assert_eq!(s.seg_url(base), Ok("ftp://files.example.com/x.ts".to_string()));
}

#[test]
fn map_and_key_addresses_follow_segment_address() {
    let base = "https://cdn.example.com/path/index.m3u8";
    let mut s = segment("seg1.ts");
    assert_eq!(s.map_url(base), Ok(None));
    assert_eq!(s.key_url(base), Ok(None));
    s.map = Some(SegmentMap { uri: "init.mp4".to_string(), byte_range: None });
    s.key = Some(key("../keys/k1", None));
    assert_eq!(s.map_url(base), Ok(Some("https://cdn.example.com/path/init.mp4".to_string())));
    assert_eq!(s.key_url(base), Ok(Some("https://cdn.example.com/keys/k1".to_string())));
    // With an absolute segment address the initialization address is parsed alone.
    let mut t = segment("https://cdn.example.com/path/seg1.ts");
    t.map = Some(SegmentMap { uri: "init.mp4".to_string(), byte_range: None });
    assert!(t.map_url(base).is_err());
}

#[test]
fn playlist_address() {
    let mut m = MediaPlaylist::default();
    m.uri = "video/720p.m3u8".to_string();
    assert_eq!(
        m.url("https://example.com/master.m3u8"),
        Ok("https://example.com/video/720p.m3u8".to_string())
    );
}

fn video(w: u64, h: u64) -> MediaPlaylist {
    let mut m = MediaPlaylist::default();
    m.media_type = MediaType::Video;
    m.resolution = Some((w, h));
    m
}

#[test]
fn video_descriptions() {
    let mut m = video(1920, 1080);
    m.bandwidth = Some(Bandwidth { value: 1572864, size: size("1.50", "MiB") });
    m.codecs = Some("avc1".to_string());
    m.frame_rate = Some(float(0x41f00000, "30"));
    m.i_frame = true;
    m.live = true;
    assert_eq!(
        m.display_video_stream(),
        "1080p        1.50 MiB/s (codecs: avc1, frame_rate: 30, iframe, live)"
    );
    let mut n = MediaPlaylist::default();
    n.media_type = MediaType::Video;
    assert_eq!(n.display_video_stream(), "?               ? ?/s (codecs: ?)");
    let mut o = video(100, 50);
    o.bandwidth = Some(Bandwidth { value: 524288, size: size("512.00", "KiB") });
    assert_eq!(o.display_video_stream(), "100x50     512.00 KiB/s (codecs: ?)");
}

#[test]
fn named_resolutions() {
    let names = [
        ((256, 144), "144p"),
        ((426, 240), "240p"),
        ((640, 360), "360p"),
        ((854, 480), "480p"),
        ((1280, 720), "720p"),
        ((1920, 1080), "1080p"),
        ((2048, 1080), "2K"),
        ((2560, 1440), "1440p"),
        ((3840, 2160), "4K"),
        ((7680, 4320), "8K"),
    ];
    for ((w, h), name) in names {
        let text = video(w, h).display_stream();
        assert!(text.starts_with(&format!("{} ? ?/s", name)), "{}", text);
    }
}

#[test]
fn audio_and_subtitle_descriptions() {
    let mut a = MediaPlaylist::default();
    a.media_type = MediaType::Audio;
    assert_eq!(a.display_audio_stream(), "language: ?");
    a.language = Some("en".to_string());
    a.codecs = Some("mp4a.40.2".to_string());
    a.bandwidth = Some(Bandwidth { value: 131072, size: size("128.00", "KiB") });
    a.channels = Some(float(0x40000000, "2"));
    a.live = true;
    assert_eq!(
        a.display_audio_stream(),
        "language: en, codecs: mp4a.40.2, bandwidth: 128.00 KiB/s, channels: 2, live"
    );
    let mut s = MediaPlaylist::default();
    s.media_type = MediaType::Subtitles;
    assert_eq!(s.display_subtitle_stream(), "language: ?");
    s.language = Some("fr".to_string());
    s.codecs = Some("wvtt".to_string());
    assert_eq!(s.display_subtitle_stream(), "language: fr, codecs: wvtt");
    assert_eq!(s.display_stream(), "language: fr, codecs: wvtt");
}

#[test]
fn stream_descriptions_by_type() {
    let mut m = video(1920, 1080);
    m.bandwidth = Some(Bandwidth { value: 1572864, size: size("1.50", "MiB") });
    m.codecs = Some("avc1".to_string());
    assert_eq!(m.display_stream(), "1080p 1.50 MiB/s (codecs: avc1)");
    let u = MediaPlaylist::default();
    assert_eq!(u.display_stream(), "");
    let mut a = MediaPlaylist::default();
    a.media_type = MediaType::Audio;
    a.language = Some("en  us".to_string());
    assert_eq!(a.display_stream(), "language: en us");
}

#[test]
fn file_names() {
    let mut m = video(1280, 720);
    m.uri = "https://x.example/y/video<1>.m3u8?token=a/b".to_string();
    assert_eq!(m.file_stem(), "video_1_");
    assert_eq!(m.file_name("mp4", None), "vsd_video_video_1_.mp4");
    assert_eq!(m.file_name("mp4", Some(2)), "vsd_video_video_1__(2).mp4");
    let mut a = MediaPlaylist::default();
    a.media_type = MediaType::Audio;
    a.uri = "audio/en:main.v2.m3u8".to_string();
    assert_eq!(a.file_name("m4a", None), "vsd_audio_en_main.v2.m4a");
    let mut u = MediaPlaylist::default();
    u.uri = "https://x.example/dir/".to_string();
    assert_eq!(u.file_name("ts", Some(1)), "vsd_undefined__(1).ts");
}

#[test]
fn free_name_probing() {
    assert_eq!(next_name_probe(None, false), NameProbe::Use);
    assert_eq!(next_name_probe(None, true), NameProbe::Try(1));
    assert_eq!(next_name_probe(Some(1), true), NameProbe::Try(2));
    assert_eq!(next_name_probe(Some(41), true), NameProbe::Try(42));
    assert_eq!(next_name_probe(Some(7), false), NameProbe::Use);
}

#[test]
fn attempts_give_distinct_file_names() {
    let mut m = MediaPlaylist::default();
    m.media_type = MediaType::Video;
    m.uri = "clip.m3u8".to_string();
    let names: Vec<String> = vec![None, Some(1), Some(2), Some(10), Some(11), Some(110)]
        .into_iter()
        .map(|a| m.file_name("mp4", a))
        .collect();
    assert_eq!(names[0], "vsd_video_clip.mp4");
    assert_eq!(names[3], "vsd_video_clip_(10).mp4");
    for i in 0..names.len() {
        for j in 0..names.len() {
            if i != j {
                assert_ne!(names[i], names[j]);
            }
        }
    }
}
