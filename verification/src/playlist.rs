//! The playlist model: media streams, their segments, and how they are
//! described, addressed and named.

use vstd::prelude::*;
use crate::text::{
    is_tidy, lemma_collapse_is_tidy,
    lemma_without_extension_prefix,
    lemma_split_pieces_exclude,
    lemma_split_nonempty,
    chars_of, split_at_char, split_on, string_of, strip_extension, without_extension,
    collapse_spaces, collapse_white_space, decimal_string, pad_end, pad_start, push_padded_end,
    push_padded_start, append_str, decimal, ends_with, has_prefix, has_suffix, lowercase, push_decimal, remove_char,
    all_ascii, ascii_lower, digit_char,
    starts_with, to_lowercase, without_char,
};
use crate::url::{joined_url, join_url, outcome_view, parse_url, parsed_url};

verus! {

/// The kind of content a media stream carries.
#[derive(Clone, Copy, Debug, PartialEq, Eq, Structural)]
pub enum MediaType {
    Audio,
    Subtitles,
    Undefined,
    Video,
}

/// The name under which a media type is shown.
pub open spec fn media_type_name(m: MediaType) -> Seq<char> {
    match m {
        MediaType::Audio => "audio"@,
        MediaType::Subtitles => "subtitles"@,
        MediaType::Undefined => "undefined"@,
        MediaType::Video => "video"@,
    }
}

impl MediaType {
    /// The lowercase name of the media type, as it is displayed.
    pub fn as_str(&self) -> (s: &'static str)
        ensures
            s@ == media_type_name(*self),
    {
        match self {
            MediaType::Audio => "audio",
            MediaType::Subtitles => "subtitles",
            MediaType::Undefined => "undefined",
            MediaType::Video => "video",
        }
    }
}

impl Default for MediaType {
    fn default() -> (m: Self)
        ensures
            m == MediaType::Undefined,
    {
        MediaType::Undefined
    }
}

/// The streaming format a playlist comes from.
#[derive(Clone, Copy, Debug, PartialEq, Eq, Structural)]
pub enum PlaylistType {
    Dash,
    Hls,
}

impl Default for PlaylistType {
    fn default() -> (p: Self)
        ensures
            p == PlaylistType::Hls,
    {
        PlaylistType::Hls
    }
}

/// A 32-bit floating-point value carried as plain data: its IEEE 754 bit
/// pattern, which orders it, and its decimal text as `{}` prints it, which
/// displays it.
#[derive(Debug)]
pub struct Float32 {
    pub bits: u32,
    pub text: String,
}

/// A byte count rendered for display at two decimals: the number, the unit,
/// and both together.
#[derive(Debug)]
pub struct ByteSize {
    pub value: String,
    pub unit: String,
    pub text: String,
}

/// The bandwidth a stream announces, with its rendering.
#[derive(Debug)]
pub struct Bandwidth {
    pub value: u64,
    pub size: ByteSize,
}

/// A sub-range of a resource: `length` bytes, from `offset` when given.
#[derive(Clone, Copy, Debug, PartialEq, Eq, Structural)]
pub struct ByteRange {
    pub length: u64,
    pub offset: Option<u64>,
}

/// The initialization section that a segment needs before its own data.
#[derive(Debug)]
pub struct SegmentMap {
    pub uri: String,
    pub byte_range: Option<ByteRange>,
}

/// How a segment is encrypted.
#[derive(Debug)]
pub enum KeyMethod {
    Aes128,
    Cenc,
    /// The `NONE` method: the segment is not encrypted.
    Unencrypted,
    Other(String),
    SampleAes,
}

/// The decryption key of a segment.
#[derive(Debug)]
pub struct Key {
    pub default_kid: Option<String>,
    pub iv: Option<String>,
    pub key_format: Option<String>,
    pub method: KeyMethod,
    pub uri: String,
}

/// One media segment of a stream.
#[derive(Debug)]
pub struct Segment {
    pub byte_range: Option<ByteRange>,
    pub duration: Float32,
    pub key: Option<Key>,
    pub map: Option<SegmentMap>,
    pub uri: String,
}

/// One media stream (variant or rendition) of a master playlist.
#[derive(Debug)]
pub struct MediaPlaylist {
    pub bandwidth: Option<Bandwidth>,
    pub channels: Option<Float32>,
    pub codecs: Option<String>,
    pub extension: Option<String>,
    pub frame_rate: Option<Float32>,
    pub i_frame: bool,
    pub language: Option<String>,
    pub live: bool,
    pub media_type: MediaType,
    pub playlist_type: PlaylistType,
    pub resolution: Option<(u64, u64)>,
    pub segments: Vec<Segment>,
    pub uri: String,
}

impl Default for Segment {
    /// A segment with an empty address, zero duration, and no byte range, key
    /// or initialization section.
    fn default() -> (s: Self)
        ensures
            s.byte_range is None,
            s.duration.bits == 0,
            s.duration.text@ == "0"@,
            s.key is None,
            s.map is None,
            s.uri@ == Seq::<char>::empty(),
    {
        Segment {
            byte_range: None,
            duration: Float32 { bits: 0, text: String::from_str("0") },
            key: None,
            map: None,
            uri: String::new(),
        }
    }
}

impl Default for MediaPlaylist {
    /// An HLS stream of undefined type with an empty address, no segments and
    /// nothing else known.
    fn default() -> (m: Self)
        ensures
            m.bandwidth is None,
            m.channels is None,
            m.codecs is None,
            m.extension is None,
            m.frame_rate is None,
            !m.i_frame,
            m.language is None,
            !m.live,
            m.media_type == MediaType::Undefined,
            m.playlist_type == PlaylistType::Hls,
            m.resolution is None,
            m.segments@.len() == 0,
            m.uri@ == Seq::<char>::empty(),
    {
        MediaPlaylist {
            bandwidth: None,
            channels: None,
            codecs: None,
            extension: None,
            frame_rate: None,
            i_frame: false,
            language: None,
            live: false,
            media_type: MediaType::Undefined,
            playlist_type: PlaylistType::Hls,
            resolution: None,
            segments: Vec::new(),
            uri: String::new(),
        }
    }
}

/// A master playlist: the streams a presentation offers.
#[derive(Debug)]
pub struct MasterPlaylist {
    pub playlist_type: PlaylistType,
    pub uri: String,
    pub streams: Vec<MediaPlaylist>,
}

/// Whether an address is taken as absolute: it begins with `http` or `ftp`.
pub open spec fn is_absolute(uri: Seq<char>) -> bool {
    has_prefix(uri, "http"@) || has_prefix(uri, "ftp"@)
}

/// Resolution of `target`: parsed on its own when `absolute`, else joined onto `base`.
pub open spec fn resolved(absolute: bool, base: Seq<char>, target: Seq<char>) -> Result<
    Seq<char>,
    Seq<char>,
> {
    if absolute {
        parsed_url(target)
    } else {
        joined_url(base, target)
    }
}

fn absolute(uri: &str) -> (b: bool)
    ensures
        b == is_absolute(uri@),
{
    starts_with(uri, "http") || starts_with(uri, "ftp")
}

fn resolve(absolute: bool, base: &str, target: &str) -> (r: Result<String, String>)
    ensures
        outcome_view(r) == resolved(absolute, base@, target@),
{
    if absolute {
        parse_url(target)
    } else {
        join_url(base, target)
    }
}

/// The text of an optional address outcome.
pub open spec fn optional_outcome_view(r: Result<Option<String>, String>) -> Result<
    Option<Seq<char>>,
    Seq<char>,
> {
    match r {
        Ok(Some(u)) => Ok(Some(u@)),
        Ok(None) => Ok(None),
        Err(e) => Err(e@),
    }
}

/// An address outcome wrapped as present.
pub open spec fn some_outcome(r: Result<Seq<char>, Seq<char>>) -> Result<Option<Seq<char>>, Seq<char>> {
    match r {
        Ok(u) => Ok(Some(u)),
        Err(e) => Err(e),
    }
}

fn wrap_some(r: Result<String, String>) -> (o: Result<Option<String>, String>)
    ensures
        optional_outcome_view(o) == some_outcome(outcome_view(r)),
{
    match r {
        Ok(u) => Ok(Some(u)),
        Err(e) => Err(e),
    }
}

impl Segment {
    /// The address of the segment's data, with `baseurl` (the text of a parsed
    /// URL) as the base of a relative reference.
    pub fn seg_url(&self, baseurl: &str) -> (r: Result<String, String>)
        ensures
            outcome_view(r) == resolved(is_absolute(self.uri@), baseurl@, self.uri@),
    {
        resolve(absolute(&self.uri), baseurl, &self.uri)
    }

    /// The address of the segment's initialization section, if it has one. Whether
    /// that address is taken as absolute is decided by the segment's own address.
    pub fn map_url(&self, baseurl: &str) -> (r: Result<Option<String>, String>)
        ensures
            optional_outcome_view(r) == match self.map {
                Some(m) => some_outcome(resolved(is_absolute(self.uri@), baseurl@, m.uri@)),
                None => Ok(None),
            },
    {
        match &self.map {
            Some(m) => wrap_some(resolve(absolute(&self.uri), baseurl, &m.uri)),
            None => Ok(None),
        }
    }

    /// The address of the segment's decryption key, if it has one. Whether that
    /// address is taken as absolute is decided by the segment's own address.
    pub fn key_url(&self, baseurl: &str) -> (r: Result<Option<String>, String>)
        ensures
            optional_outcome_view(r) == match self.key {
                Some(k) => some_outcome(resolved(is_absolute(self.uri@), baseurl@, k.uri@)),
                None => Ok(None),
            },
    {
        match &self.key {
            Some(k) => wrap_some(resolve(absolute(&self.uri), baseurl, &k.uri)),
            None => Ok(None),
        }
    }
}

/// The first and last byte that a byte range selects, where `previous_end` is the
/// end reported for the range before it: without an offset (or with offset 0) the
/// range continues from `previous_end`; otherwise it is given by `length` and
/// `offset` in the way the stream's tags are read here, first byte `length`.
pub open spec fn range_bounds(r: ByteRange, previous_end: u64) -> (int, int) {
    let offset: int = match r.offset {
        Some(o) => o as int,
        None => 0,
    };
    if offset == 0 {
        (previous_end as int, previous_end + r.length - 1)
    } else {
        (r.length as int, r.length + offset - 1)
    }
}

/// Whether the bounds of a byte range can be computed in `u64` arithmetic
/// without overflow or underflow at any step.
pub open spec fn range_computable(r: ByteRange, previous_end: u64) -> bool {
    let offset: int = match r.offset {
        Some(o) => o as int,
        None => 0,
    };
    if offset == 0 {
        1 <= previous_end + r.length <= u64::MAX
    } else {
        r.length + offset <= u64::MAX
    }
}

/// The text of an HTTP `Range` header value, `bytes=<first>-<last>`.
pub open spec fn range_header(first: int, last: int) -> Seq<char> {
    "bytes="@ + decimal(first as nat) + "-"@ + decimal(last as nat)
}

/// The header text and last byte of a byte range, as `seg_range` and `map_range` return them.
pub open spec fn range_outcome(r: Option<(String, u64)>, br: Option<ByteRange>, previous_end: u64) -> bool {
    match br {
        None => r is None,
        Some(b) => {
            let (first, last) = range_bounds(b, previous_end);
            &&& r is Some
            &&& r.unwrap().0@ == range_header(first, last)
            &&& r.unwrap().1 == last
        },
    }
}

impl ByteRange {
    /// Whether the bounds of this range, after a range that ended at
    /// `previous_end`, are computed without overflow.
    pub fn fits_after(&self, previous_end: u64) -> (b: bool)
        ensures
            b == range_computable(*self, previous_end),
    {
        let offset = match self.offset {
            Some(o) => o,
            None => 0,
        };
        if offset == 0 {
            previous_end.checked_add(self.length).is_some() && (previous_end > 0 || self.length > 0)
        } else {
            self.length.checked_add(offset).is_some()
        }
    }

    /// The header text and last byte of this range after `previous_end`.
    fn header(&self, previous_end: u64) -> (r: (String, u64))
        requires
            range_computable(*self, previous_end),
        ensures
            r.0@ == range_header(range_bounds(*self, previous_end).0, range_bounds(*self, previous_end).1),
            r.1 == range_bounds(*self, previous_end).1,
    {
        let offset = match self.offset {
            Some(o) => o,
            None => 0,
        };
        let (start, end) = if offset == 0 {
            (previous_end, previous_end + self.length - 1)
        } else {
            (self.length, self.length + offset - 1)
        };
        let mut text = String::from_str("bytes=");
        push_decimal(&mut text, start);
        append_str(&mut text, "-");
        push_decimal(&mut text, end);
        (text, end)
    }
}

impl Segment {
    /// The `Range` header text and last byte of the segment's byte range, if it
    /// has one, after a range that ended at `previous_byterange_end`.
    pub fn seg_range(&self, previous_byterange_end: u64) -> (r: Option<(String, u64)>)
        requires
            self.byte_range matches Some(b) ==> range_computable(b, previous_byterange_end),
        ensures
            range_outcome(r, self.byte_range, previous_byterange_end),
    {
        match &self.byte_range {
            Some(b) => Some(b.header(previous_byterange_end)),
            None => None,
        }
    }

    /// The `Range` header text and last byte of the byte range of the segment's
    /// initialization section, if it has one with a byte range.
    pub fn map_range(&self, previous_byterange_end: u64) -> (r: Option<(String, u64)>)
        requires
            self.map matches Some(m) ==> (m.byte_range matches Some(b) ==> range_computable(
                b,
                previous_byterange_end,
            )),
        ensures
            range_outcome(
                r,
                match self.map {
                    Some(m) => m.byte_range,
                    None => None,
                },
                previous_byterange_end,
            ),
    {
        match &self.map {
            Some(m) => match &m.byte_range {
                Some(b) => Some(b.header(previous_byterange_end)),
                None => None,
            },
            None => None,
        }
    }
}

/// The extension of a stream's segment files: the stream's own if it names one;
/// otherwise `mp4` when its first segment, or that segment's initialization
/// section, is an `.mp4` file; otherwise `ts` for HLS and `m4s` for DASH.
pub open spec fn stream_extension(m: MediaPlaylist) -> Seq<char> {
    match m.extension {
        Some(e) => e@,
        None => {
            if m.segments@.len() > 0 && (has_suffix(m.segments@[0].uri@, ".mp4"@) || (
            m.segments@[0].map matches Some(init) && has_suffix(init.uri@, ".mp4"@))) {
                "mp4"@
            } else {
                match m.playlist_type {
                    PlaylistType::Hls => "ts"@,
                    PlaylistType::Dash => "m4s"@,
                }
            }
        },
    }
}

/// The key id of a stream: the default KID of its first segment's key, without
/// dashes and in lowercase.
pub open spec fn stream_default_kid(m: MediaPlaylist) -> Option<Seq<char>> {
    if m.segments@.len() == 0 {
        None
    } else {
        match m.segments@[0].key {
            Some(k) => match k.default_kid {
                Some(kid) => Some(lowercase(without_char(kid@, '-'))),
                None => None,
            },
            None => None,
        }
    }
}

/// The default KID of a stream's first segment's key with its dashes removed,
/// before it is put in lowercase.
pub open spec fn stream_kid_without_dashes(m: MediaPlaylist) -> Option<Seq<char>> {
    if m.segments@.len() == 0 {
        None
    } else {
        match m.segments@[0].key {
            Some(k) => match k.default_kid {
                Some(kid) => Some(without_char(kid@, '-')),
                None => None,
            },
            None => None,
        }
    }
}

/// Whether a stream has exactly the resolution `w` x `h`.
pub open spec fn stream_has_resolution(m: MediaPlaylist, w: u16, h: u16) -> bool {
    match m.resolution {
        Some((vw, vh)) => vw == w && vh == h,
        None => false,
    }
}

impl MediaPlaylist {
    /// Whether the stream's resolution is exactly `w` x `h`.
    pub fn has_resolution(&self, w: u16, h: u16) -> (b: bool)
        ensures
            b == stream_has_resolution(*self, w, h),
    {
        match self.resolution {
            Some((video_w, video_h)) => w as u64 == video_w && h as u64 == video_h,
            None => false,
        }
    }

    /// The address of the stream's playlist, with `baseurl` (the text of a parsed
    /// URL) as the base of a relative reference.
    pub fn url(&self, baseurl: &str) -> (r: Result<String, String>)
        ensures
            outcome_view(r) == resolved(is_absolute(self.uri@), baseurl@, self.uri@),
    {
        resolve(absolute(&self.uri), baseurl, &self.uri)
    }

    /// Whether the stream comes from an HLS playlist.
    pub fn is_hls(&self) -> (b: bool)
        ensures
            b == (self.playlist_type == PlaylistType::Hls),
    {
        match self.playlist_type {
            PlaylistType::Hls => true,
            _ => false,
        }
    }

    /// The extension to give the stream's downloaded file.
    pub fn extension(&self) -> (r: String)
        ensures
            r@ == stream_extension(*self),
    {
        if let Some(ext) = &self.extension {
            return ext.clone();
        }
        let mut ext = match self.playlist_type {
            PlaylistType::Hls => "ts",
            PlaylistType::Dash => "m4s",
        };
        if self.segments.len() > 0 {
            let segment = &self.segments[0];
            if let Some(init) = &segment.map {
                if ends_with(&init.uri, ".mp4") {
                    ext = "mp4";
                }
            }
            if ends_with(&segment.uri, ".mp4") {
                ext = "mp4";
            }
        }
        String::from_str(ext)
    }

    /// The key id of the stream's first segment, if its key names a default KID;
    /// a KID of ASCII characters only comes out with its ASCII letters in
    /// lowercase.
    pub fn default_kid(&self) -> (r: Option<String>)
        ensures
            match r {
                Some(x) => stream_default_kid(*self) == Some(x@),
                None => stream_default_kid(*self) is None,
            },
            r matches Some(x) ==> stream_kid_without_dashes(*self) matches Some(d) && (all_ascii(d)
                ==> x@ == ascii_lower(d)),
    {
        if self.segments.len() > 0 {
            if let Some(key) = &self.segments[0].key {
                if let Some(x) = &key.default_kid {
                    let dashless = remove_char(x, '-');
                    return Some(to_lowercase(&dashless));
                }
            }
        }
        None
    }
}

/// The text of an optional string, `?` when absent.
pub open spec fn text_or_unknown(o: Option<String>) -> Seq<char> {
    match o {
        Some(t) => t@,
        None => "?"@,
    }
}

/// `piece` when `present`, nothing otherwise.
pub open spec fn when(present: bool, piece: Seq<char>) -> Seq<char> {
    if present {
        piece
    } else {
        seq![]
    }
}

/// The common name of a video resolution, for the sizes that have one.
pub open spec fn resolution_name(w: u64, h: u64) -> Option<Seq<char>> {
    if w == 256 && h == 144 {
        Some("144p"@)
    } else if w == 426 && h == 240 {
        Some("240p"@)
    } else if w == 640 && h == 360 {
        Some("360p"@)
    } else if w == 854 && h == 480 {
        Some("480p"@)
    } else if w == 1280 && h == 720 {
        Some("720p"@)
    } else if w == 1920 && h == 1080 {
        Some("1080p"@)
    } else if w == 2048 && h == 1080 {
        Some("2K"@)
    } else if w == 2560 && h == 1440 {
        Some("1440p"@)
    } else if w == 3840 && h == 2160 {
        Some("4K"@)
    } else if w == 7680 && h == 4320 {
        Some("8K"@)
    } else {
        None
    }
}

/// How a resolution is shown: its common name, else `<w>x<h>`; `?` when unknown.
pub open spec fn resolution_label(res: Option<(u64, u64)>) -> Seq<char> {
    match res {
        None => "?"@,
        Some((w, h)) => match resolution_name(w, h) {
            Some(n) => n,
            None => decimal(w as nat) + "x"@ + decimal(h as nat),
        },
    }
}

/// The description of a video stream: resolution (left-aligned in 9 columns),
/// bandwidth number (right-aligned in 7 columns) and unit per second, then the
/// codecs, frame rate, key-frame-only and live marks in brackets.
pub open spec fn video_description(m: MediaPlaylist) -> Seq<char> {
    let bw_value = match m.bandwidth {
        Some(b) => b.size.value@,
        None => "?"@,
    };
    let bw_unit = match m.bandwidth {
        Some(b) => b.size.unit@,
        None => "?"@,
    };
    let extra = "(codecs: "@ + text_or_unknown(m.codecs) + match m.frame_rate {
        Some(f) => ", frame_rate: "@ + f.text@,
        None => seq![],
    } + when(m.i_frame, ", iframe"@) + when(m.live, ", live"@) + ")"@;
    pad_end(resolution_label(m.resolution), 9) + " "@ + pad_start(bw_value, 7) + " "@ + bw_unit
        + "/s "@ + extra
}

/// The description of an audio stream: language, then codecs, bandwidth per
/// second, channels and the live mark, each only when known.
pub open spec fn audio_description(m: MediaPlaylist) -> Seq<char> {
    "language: "@ + text_or_unknown(m.language) + match m.codecs {
        Some(c) => ", codecs: "@ + c@,
        None => seq![],
    } + match m.bandwidth {
        Some(b) => ", bandwidth: "@ + b.size.text@ + "/s"@,
        None => seq![],
    } + match m.channels {
        Some(c) => ", channels: "@ + c.text@,
        None => seq![],
    } + when(m.live, ", live"@)
}

/// The description of a subtitle stream: language, then codecs when known.
pub open spec fn subtitle_description(m: MediaPlaylist) -> Seq<char> {
    "language: "@ + text_or_unknown(m.language) + match m.codecs {
        Some(c) => ", codecs: "@ + c@,
        None => seq![],
    }
}

/// The one-line description of a stream by its media type, with runs of white
/// space reduced to single spaces and none at either end.
pub open spec fn stream_description(m: MediaPlaylist) -> Seq<char> {
    collapse_white_space(
        match m.media_type {
            MediaType::Audio => audio_description(m),
            MediaType::Subtitles => subtitle_description(m),
            MediaType::Undefined => seq![],
            MediaType::Video => video_description(m),
        },
    )
}

fn push_text_or_unknown(out: &mut String, o: &Option<String>)
    ensures
        final(out)@ == old(out)@ + text_or_unknown(*o),
{
    match o {
        Some(t) => append_str(out, t.as_str()),
        None => append_str(out, "?"),
    }
}

fn resolution_text(res: Option<(u64, u64)>) -> (r: String)
    ensures
        r@ == resolution_label(res),
{
    match res {
        None => String::from_str("?"),
        Some((w, h)) => {
            let name = if w == 256 && h == 144 {
                "144p"
            } else if w == 426 && h == 240 {
                "240p"
            } else if w == 640 && h == 360 {
                "360p"
            } else if w == 854 && h == 480 {
                "480p"
            } else if w == 1280 && h == 720 {
                "720p"
            } else if w == 1920 && h == 1080 {
                "1080p"
            } else if w == 2048 && h == 1080 {
                "2K"
            } else if w == 2560 && h == 1440 {
                "1440p"
            } else if w == 3840 && h == 2160 {
                "4K"
            } else if w == 7680 && h == 4320 {
                "8K"
            } else {
                let mut t = decimal_string(w);
                append_str(&mut t, "x");
                push_decimal(&mut t, h);
                return t;
            };
            String::from_str(name)
        },
    }
}

impl MediaPlaylist {
    /// The description of the stream as a video stream.
    pub fn display_video_stream(&self) -> (r: String)
        ensures
            r@ == video_description(*self),
    {
        let resolution = resolution_text(self.resolution);
        let mut extra = String::from_str("(codecs: ");
        push_text_or_unknown(&mut extra, &self.codecs);
        let ghost e1 = extra@;
        if let Some(frame_rate) = &self.frame_rate {
            append_str(&mut extra, ", frame_rate: ");
            append_str(&mut extra, frame_rate.text.as_str());
        }
        let ghost e2 = extra@;
        if self.i_frame {
            append_str(&mut extra, ", iframe");
        }
        let ghost e3 = extra@;
        if self.live {
            append_str(&mut extra, ", live");
        }
        let ghost e4 = extra@;
        append_str(&mut extra, ")");
        assert(e2 =~= e1 + match self.frame_rate {
            Some(f) => ", frame_rate: "@ + f.text@,
            None => seq![],
        });
        assert(e3 =~= e2 + when(self.i_frame, ", iframe"@));
        assert(e4 =~= e3 + when(self.live, ", live"@));
        let mut out = String::new();
        push_padded_end(&mut out, resolution.as_str(), 9);
        append_str(&mut out, " ");
        match &self.bandwidth {
            Some(b) => {
                push_padded_start(&mut out, b.size.value.as_str(), 7);
                append_str(&mut out, " ");
                append_str(&mut out, b.size.unit.as_str());
            },
            None => {
                push_padded_start(&mut out, "?", 7);
                append_str(&mut out, " ");
                append_str(&mut out, "?");
            },
        }
        append_str(&mut out, "/s ");
        append_str(&mut out, extra.as_str());
        assert(out@ =~= video_description(*self));
        out
    }

    /// The description of the stream as an audio stream.
    pub fn display_audio_stream(&self) -> (r: String)
        ensures
            r@ == audio_description(*self),
    {
        let mut extra = String::from_str("language: ");
        push_text_or_unknown(&mut extra, &self.language);
        let ghost e1 = extra@;
        if let Some(codecs) = &self.codecs {
            append_str(&mut extra, ", codecs: ");
            append_str(&mut extra, codecs.as_str());
        }
        let ghost e2 = extra@;
        if let Some(bandwidth) = &self.bandwidth {
            append_str(&mut extra, ", bandwidth: ");
            append_str(&mut extra, bandwidth.size.text.as_str());
            append_str(&mut extra, "/s");
        }
        let ghost e3 = extra@;
        if let Some(channels) = &self.channels {
            append_str(&mut extra, ", channels: ");
            append_str(&mut extra, channels.text.as_str());
        }
        let ghost e4 = extra@;
        if self.live {
            append_str(&mut extra, ", live");
        }
        assert(e2 =~= e1 + match self.codecs {
            Some(c) => ", codecs: "@ + c@,
            None => seq![],
        });
        assert(e3 =~= e2 + match self.bandwidth {
            Some(b) => ", bandwidth: "@ + b.size.text@ + "/s"@,
            None => seq![],
        });
        assert(e4 =~= e3 + match self.channels {
            Some(c) => ", channels: "@ + c.text@,
            None => seq![],
        });
        assert(extra@ =~= e4 + when(self.live, ", live"@));
        extra
    }

    /// The description of the stream as a subtitle stream.
    pub fn display_subtitle_stream(&self) -> (r: String)
        ensures
            r@ == subtitle_description(*self),
    {
        let mut extra = String::from_str("language: ");
        push_text_or_unknown(&mut extra, &self.language);
        let ghost e1 = extra@;
        if let Some(codecs) = &self.codecs {
            append_str(&mut extra, ", codecs: ");
            append_str(&mut extra, codecs.as_str());
        }
        assert(extra@ =~= e1 + match self.codecs {
            Some(c) => ", codecs: "@ + c@,
            None => seq![],
        });
        extra
    }

    /// The one-line description of the stream according to its media type.
    pub fn display_stream(&self) -> (r: String)
        ensures
            r@ == stream_description(*self),
    {
        let text = match self.media_type {
            MediaType::Audio => self.display_audio_stream(),
            MediaType::Subtitles => self.display_subtitle_stream(),
            MediaType::Undefined => String::new(),
            MediaType::Video => self.display_video_stream(),
        };
        collapse_spaces(text.as_str())
    }
}

/// A character that file names on common systems reject, replaced by `_`.
pub open spec fn file_safe_char(c: char) -> char {
    if c == '<' || c == '>' || c == ':' || c == '"' || c == '\\' || c == '|' || c == '?' {
        '_'
    } else {
        c
    }
}

/// The last path segment of an address, before any query (`?`), with the
/// characters that file names reject replaced by `_`.
pub open spec fn uri_file_name(uri: Seq<char>) -> Seq<char> {
    split_on(split_on(uri, '?')[0], '/').last().map_values(|c: char| file_safe_char(c))
}

/// The stem of a stream's file: the last path segment of its address without
/// query and extension, made safe for file names.
pub open spec fn stream_file_stem(m: MediaPlaylist) -> Seq<char> {
    without_extension(uri_file_name(m.uri@))
}

/// The file name for a stream: `vsd_<media type>_<stem>.<ext>`, or, for a later
/// attempt `i` when that name is taken, `vsd_<media type>_<stem>_(<i>).<ext>`.
pub open spec fn stream_file_name(m: MediaPlaylist, ext: Seq<char>, attempt: Option<u64>) -> Seq<
    char,
> {
    "vsd_"@ + media_type_name(m.media_type) + "_"@ + stream_file_stem(m) + match attempt {
        Some(i) => "_("@ + decimal(i as nat) + ")"@,
        None => seq![],
    } + "."@ + ext
}

fn file_safe(c: char) -> (r: char)
    ensures
        r == file_safe_char(c),
{
    if c == '<' || c == '>' || c == ':' || c == '"' || c == '\\' || c == '|' || c == '?' {
        '_'
    } else {
        c
    }
}

impl MediaPlaylist {
    /// The stem of the stream's file name.
    pub fn file_stem(&self) -> (r: String)
        ensures
            r@ == stream_file_stem(*self),
    {
        let before_query = split_at_char(&self.uri, '?');
        proof {
            lemma_split_nonempty(self.uri@, '?');
        }
        let segments = split_at_char(&before_query[0], '/');
        proof {
            lemma_split_nonempty(before_query@[0]@, '/');
        }
        let last = &segments[segments.len() - 1];
        let v = chars_of(last);
        assert(v@ == split_on(split_on(self.uri@, '?')[0], '/').last());
        let n = v.len();
        let mut safe: Vec<char> = Vec::new();
        for i in 0..n
            invariant
                n == v@.len(),
                safe@ == v@.take(i as int).map_values(|c: char| file_safe_char(c)),
        {
            safe.push(file_safe(v[i]));
            assert(v@.take(i + 1).map_values(|c: char| file_safe_char(c)) =~= v@.take(
                i as int,
            ).map_values(|c: char| file_safe_char(c)).push(file_safe_char(v@[i as int])));
        }
        assert(v@.take(n as int) =~= v@);
        let name = string_of(safe.as_slice());
        assert(name@ == uri_file_name(self.uri@));
        strip_extension(name.as_str())
    }

    /// The name of the stream's output file with extension `ext`; `attempt`
    /// numbers the alternatives tried when the plain name is already taken.
    pub fn file_name(&self, ext: &str, attempt: Option<u64>) -> (r: String)
        ensures
            r@ == stream_file_name(*self, ext@, attempt),
    {
        let stem = self.file_stem();
        let mut out = String::from_str("vsd_");
        append_str(&mut out, self.media_type.as_str());
        append_str(&mut out, "_");
        append_str(&mut out, stem.as_str());
        let ghost before = out@;
        if let Some(i) = attempt {
            append_str(&mut out, "_(");
            push_decimal(&mut out, i);
            append_str(&mut out, ")");
        }
        assert(out@ =~= before + match attempt {
            Some(i) => "_("@ + decimal(i as nat) + ")"@,
            None => seq![],
        });
        append_str(&mut out, ".");
        append_str(&mut out, ext);
        assert(out@ =~= stream_file_name(*self, ext@, attempt));
        out
    }
}

/// The next step in looking for a free output file name.
#[derive(Clone, Copy, Debug, PartialEq, Eq, Structural)]
pub enum NameProbe {
    /// The name last tried is free: use it.
    Use,
    /// The name last tried is taken: try the one numbered so.
    Try(u64),
}

/// Given the attempt whose name was just probed (`None` for the plain name)
/// and whether a file of that name exists, what to do next: use the name when
/// it is free, else try the next number, counting from 1.
pub fn next_name_probe(attempt: Option<u64>, taken: bool) -> (r: NameProbe)
    requires
        attempt matches Some(i) ==> i < u64::MAX,
    ensures
        !taken ==> r == NameProbe::Use,
        taken ==> r == NameProbe::Try(
            match attempt {
                None => 1u64,
                Some(i) => (i + 1) as u64,
            },
        ),
{
    if !taken {
        NameProbe::Use
    } else {
        match attempt {
            None => NameProbe::Try(1),
            Some(i) => NameProbe::Try(i + 1),
        }
    }
}

/// Whether `c` may stand in a file name: it is none of `<`, `>`, `:`, `"`,
/// `\\`, `|`, `?` and `/`.
pub open spec fn file_name_char_ok(c: char) -> bool {
    c != '<' && c != '>' && c != ':' && c != '"' && c != '\\' && c != '|' && c != '?' && c != '/'
}

/// The stem of a stream's file name holds no character that file names reject
/// and no path separator, whatever the stream's address.
pub proof fn lemma_file_stem_is_safe(m: MediaPlaylist)
    ensures
        forall|k: int|
            0 <= k < stream_file_stem(m).len() ==> file_name_char_ok(#[trigger] stream_file_stem(m)[k]),
{
    let before = split_on(m.uri@, '?');
    lemma_split_nonempty(m.uri@, '?');
    let pieces = split_on(before[0], '/');
    lemma_split_nonempty(before[0], '/');
    lemma_split_pieces_exclude(before[0], '/');
    let last = pieces.last();
    assert(last == pieces[pieces.len() - 1]);
    let name = uri_file_name(m.uri@);
    assert forall|k: int| 0 <= k < name.len() implies file_name_char_ok(#[trigger] name[k]) by {
        assert(name[k] == file_safe_char(last[k]));
        assert(pieces[pieces.len() - 1][k] != '/');
    }
    let stem = stream_file_stem(m);
    lemma_without_extension_prefix(name);
    assert forall|k: int| 0 <= k < stem.len() implies file_name_char_ok(#[trigger] stem[k]) by {
        assert(stem[k] == name[k]);
    }
}

proof fn lemma_decimal_nonempty(n: nat)
    ensures
        decimal(n).len() >= 1,
    decreases n,
{
    if n >= 10 {
        lemma_decimal_nonempty(n / 10);
    }
}

proof fn lemma_decimal_injective(i: nat, j: nat)
    requires
        decimal(i) == decimal(j),
    ensures
        i == j,
    decreases i,
{
    if i < 10 && j < 10 {
        assert(decimal(i) == seq![digit_char(i as int)]);
        assert(decimal(j) == seq![digit_char(j as int)]);
        assert(decimal(i)[0] == digit_char(i as int));
        assert(decimal(j)[0] == digit_char(j as int));
        assert(i == j);
    } else if i < 10 {
        lemma_decimal_nonempty(j / 10);
        assert(decimal(j).len() >= 2);
        assert(decimal(i).len() == 1);
    } else if j < 10 {
        lemma_decimal_nonempty(i / 10);
        assert(decimal(i).len() >= 2);
        assert(decimal(j).len() == 1);
    } else {
        let di = decimal(i);
        let dj = decimal(j);
        assert(di.last() == dj.last());
        assert(di.drop_last() =~= decimal(i / 10));
        assert(dj.drop_last() =~= decimal(j / 10));
        lemma_decimal_injective(i / 10, j / 10);
        assert(digit_char((i % 10) as int) == digit_char((j % 10) as int));
        assert(i % 10 == j % 10);
        assert(i == 10 * (i / 10) + i % 10) by (nonlinear_arith);
        assert(j == 10 * (j / 10) + j % 10) by (nonlinear_arith);
    }
}

/// Different attempts give different file names, so trying one attempt number
/// after another never meets the same name twice.
pub proof fn lemma_attempts_name_different_files(
    m: MediaPlaylist,
    ext: Seq<char>,
    a1: Option<u64>,
    a2: Option<u64>,
)
    requires
        a1 != a2,
    ensures
        stream_file_name(m, ext, a1) != stream_file_name(m, ext, a2),
{
    reveal_strlit("_(");
    reveal_strlit(")");
    let base = "vsd_"@ + media_type_name(m.media_type) + "_"@ + stream_file_stem(m);
    let tail = "."@ + ext;
    let mid = |a: Option<u64>|
        match a {
            Some(i) => "_("@ + decimal(i as nat) + ")"@,
            None => Seq::<char>::empty(),
        };
    let n1 = stream_file_name(m, ext, a1);
    let n2 = stream_file_name(m, ext, a2);
    assert(n1 =~= base + mid(a1) + tail);
    assert(n2 =~= base + mid(a2) + tail);
    if n1 == n2 {
        match (a1, a2) {
            (Some(i), Some(j)) => {
                let d1 = decimal(i as nat);
                let d2 = decimal(j as nat);
                assert(d1.len() == d2.len());
                assert forall|k: int| 0 <= k < d1.len() implies d1[k] == d2[k] by {
                    assert(n1[base.len() + 2 + k] == d1[k]);
                    assert(n2[base.len() + 2 + k] == d2[k]);
                }
                assert(d1 =~= d2);
                lemma_decimal_injective(i as nat, j as nat);
            },
            (Some(i), None) => {
                assert(n1.len() > n2.len());
            },
            (None, Some(j)) => {
                assert(n2.len() > n1.len());
            },
            (None, None) => {},
        }
    }
}

/// A stream's one-line description has no white space at either end and none
/// but single spaces between other characters.
pub proof fn lemma_stream_description_is_tidy(m: MediaPlaylist)
    ensures
        is_tidy(stream_description(m)),
{
    lemma_collapse_is_tidy(
        match m.media_type {
            MediaType::Audio => audio_description(m),
            MediaType::Subtitles => subtitle_description(m),
            MediaType::Undefined => seq![],
            MediaType::Video => video_description(m),
        },
    );
}

/// Marking a video stream live appends ", live" to the parenthesised details
/// of its description, whatever its other flags: the description of the live
/// stream is that of the same stream not live, with ", live" before the
/// closing parenthesis.
pub proof fn lemma_live_mark_in_video_description(m1: MediaPlaylist, m2: MediaPlaylist)
    requires
        !m1.live,
        m2.live,
        m1.bandwidth == m2.bandwidth,
        m1.codecs == m2.codecs,
        m1.frame_rate == m2.frame_rate,
        m1.i_frame == m2.i_frame,
        m1.resolution == m2.resolution,
    ensures
        video_description(m2) == video_description(m1).drop_last() + ", live)"@,
        has_suffix(video_description(m2), ", live)"@),
{
    reveal_strlit(", live");
    reveal_strlit(")");
    reveal_strlit(", live)");
    let d1 = video_description(m1);
    let d2 = video_description(m2);
    let head = pad_end(resolution_label(m1.resolution), 9) + " "@ + pad_start(
        match m1.bandwidth {
            Some(b) => b.size.value@,
            None => "?"@,
        },
        7,
    ) + " "@ + match m1.bandwidth {
        Some(b) => b.size.unit@,
        None => "?"@,
    } + "/s "@ + "(codecs: "@ + text_or_unknown(m1.codecs) + match m1.frame_rate {
        Some(f) => ", frame_rate: "@ + f.text@,
        None => seq![],
    } + when(m1.i_frame, ", iframe"@);
    assert(d1 =~= head + ")"@);
    assert(d2 =~= head + ", live"@ + ")"@);
    assert(d1.drop_last() =~= head);
    assert(d2 =~= head + ", live)"@);
    assert(d2.skip(d2.len() - 7) =~= ", live)"@);
}

/// Marking an audio stream live appends ", live" to its description.
pub proof fn lemma_live_mark_in_audio_description(m1: MediaPlaylist, m2: MediaPlaylist)
    requires
        !m1.live,
        m2.live,
        m1.language == m2.language,
        m1.codecs == m2.codecs,
        m1.bandwidth == m2.bandwidth,
        m1.channels == m2.channels,
    ensures
        audio_description(m2) == audio_description(m1) + ", live"@,
{
    assert(audio_description(m1) + ", live"@ =~= audio_description(m2));
}

/// Whether an address ends in ".mp4".
pub open spec fn ends_in_mp4(u: Seq<char>) -> bool {
    u.len() >= 4 && u.subrange(u.len() - 4, u.len() as int) == ".mp4"@
}

/// When a stream names no extension, an address ending in ".mp4", of its first
/// segment or of that segment's initialization section, makes its extension
/// "mp4", for HLS and DASH playlists alike; a named extension is used as it is.
pub proof fn lemma_mp4_segments_give_mp4_extension(m: MediaPlaylist)
    ensures
        m.extension matches Some(e) ==> stream_extension(m) == e@,
        m.extension is None && m.segments@.len() > 0 && ends_in_mp4(m.segments@[0].uri@)
            ==> stream_extension(m) == "mp4"@,
        m.extension is None && m.segments@.len() > 0 && (m.segments@[0].map matches Some(init)
            && ends_in_mp4(init.uri@)) ==> stream_extension(m) == "mp4"@,
        m.extension is None && !(m.segments@.len() > 0 && (ends_in_mp4(m.segments@[0].uri@) || (
        m.segments@[0].map matches Some(init) && ends_in_mp4(init.uri@)))) ==> stream_extension(m)
            == match m.playlist_type {
            PlaylistType::Hls => "ts"@,
            PlaylistType::Dash => "m4s"@,
        },
{
    reveal_strlit(".mp4");
    if m.extension is None && m.segments@.len() > 0 {
        let u = m.segments@[0].uri@;
        if u.len() >= 4 {
            assert(u.skip(u.len() - 4) =~= u.subrange(u.len() - 4, u.len() as int));
        }
        if let Some(init) = m.segments@[0].map {
            let v = init.uri@;
            if v.len() >= 4 {
                assert(v.skip(v.len() - 4) =~= v.subrange(v.len() - 4, v.len() as int));
            }
        }
    }
}

/// A stream's file name begins with "vsd_", the name of its media type
/// ("audio", "subtitles", "undefined" or "video") and "_", whatever the attempt
/// and extension.
pub proof fn lemma_file_name_begins_with_media_type(m: MediaPlaylist, ext: Seq<char>, attempt: Option<u64>)
    ensures
        ({
            let p = "vsd_"@ + match m.media_type {
                MediaType::Audio => "audio"@,
                MediaType::Subtitles => "subtitles"@,
                MediaType::Undefined => "undefined"@,
                MediaType::Video => "video"@,
            } + "_"@;
            stream_file_name(m, ext, attempt).len() >= p.len() && stream_file_name(
                m,
                ext,
                attempt,
            ).take(p.len() as int) == p
        }),
{
    let p = "vsd_"@ + match m.media_type {
        MediaType::Audio => "audio"@,
        MediaType::Subtitles => "subtitles"@,
        MediaType::Undefined => "undefined"@,
        MediaType::Video => "video"@,
    } + "_"@;
    let rest = stream_file_stem(m) + match attempt {
        Some(i) => "_("@ + decimal(i as nat) + ")"@,
        None => seq![],
    } + "."@ + ext;
    let n = stream_file_name(m, ext, attempt);
    assert(n =~= p + rest);
    assert(n.take(p.len() as int) =~= p);
}

} // verus!
