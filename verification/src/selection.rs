//! Choosing which streams of a master playlist to download: the default
//! choice for a requested quality, the menu of streams, the reading of a typed
//! answer, and the streams that the chosen menu numbers stand for.

use vstd::prelude::*;
use crate::playlist::{
    MasterPlaylist, MediaPlaylist, MediaType, audio_description, stream_description,
    stream_has_resolution, subtitle_description, video_description,
};
use crate::sorting::{
    arranged, lemma_arranged_groups, lemma_sorted_video_extremes, of_type, pixels_fit, quality_at_most,
    stream_orders,
};
use crate::text::{
    collapse_spaces, collapse_white_space, join_with, lemma_join_push,
    parse_usize, parsed_usize, split_at_char, split_on, trim, trimmed, append_str, chars_of, decimal, decimal_string, pad_start, push_char, push_padded_start,
};

verus! {

/// The video quality asked for: the lowest or highest offered, an exact
/// resolution, or one of the common named resolutions.
#[derive(Clone, Copy, Debug, PartialEq, Eq, Structural)]
pub enum Quality {
    Lowest,
    Highest,
    Resolution(u16, u16),
    Youtube144p,
    Youtube240p,
    Youtube360p,
    Youtube480p,
    Youtube720p,
    Youtube1080p,
    Youtube2k,
    Youtube1440p,
    Youtube4k,
    Youtube8k,
}

/// The resolution a quality asks for, when it names one.
pub open spec fn quality_resolution(q: Quality) -> Option<(u16, u16)> {
    match q {
        Quality::Lowest => None,
        Quality::Highest => None,
        Quality::Resolution(w, h) => Some((w, h)),
        Quality::Youtube144p => Some((256, 144)),
        Quality::Youtube240p => Some((426, 240)),
        Quality::Youtube360p => Some((640, 360)),
        Quality::Youtube480p => Some((854, 480)),
        Quality::Youtube720p => Some((1280, 720)),
        Quality::Youtube1080p => Some((1920, 1080)),
        Quality::Youtube2k => Some((2048, 1080)),
        Quality::Youtube1440p => Some((2560, 1440)),
        Quality::Youtube4k => Some((3840, 2160)),
        Quality::Youtube8k => Some((7680, 4320)),
    }
}

fn resolution_of(q: Quality) -> (r: Option<(u16, u16)>)
    ensures
        r == quality_resolution(q),
{
    match q {
        Quality::Lowest => None,
        Quality::Highest => None,
        Quality::Resolution(w, h) => Some((w, h)),
        Quality::Youtube144p => Some((256, 144)),
        Quality::Youtube240p => Some((426, 240)),
        Quality::Youtube360p => Some((640, 360)),
        Quality::Youtube480p => Some((854, 480)),
        Quality::Youtube720p => Some((1280, 720)),
        Quality::Youtube1080p => Some((1920, 1080)),
        Quality::Youtube2k => Some((2048, 1080)),
        Quality::Youtube1440p => Some((2560, 1440)),
        Quality::Youtube4k => Some((3840, 2160)),
        Quality::Youtube8k => Some((7680, 4320)),
    }
}

/// Whether `k` is the position of the default video stream among `videos` for
/// quality `q`: the last for the lowest quality, the first for the highest,
/// else the first stream with the asked resolution.
pub open spec fn is_default_video(videos: Seq<MediaPlaylist>, q: Quality, k: int) -> bool {
    match quality_resolution(q) {
        Some((w, h)) => {
            &&& 0 <= k < videos.len()
            &&& stream_has_resolution(videos[k], w, h)
            &&& forall|j: int| 0 <= j < k ==> !stream_has_resolution(#[trigger] videos[j], w, h)
        },
        None => k == if q == Quality::Lowest {
            videos.len() - 1
        } else {
            0
        },
    }
}

/// Whether quality `q` has no default among `videos`: it names a resolution
/// that no video stream has.
pub open spec fn lacks_default_video(videos: Seq<MediaPlaylist>, q: Quality) -> bool {
    match quality_resolution(q) {
        Some((w, h)) => forall|j: int|
            0 <= j < videos.len() ==> !stream_has_resolution(#[trigger] videos[j], w, h),
        None => false,
    }
}

/// The position of the default video stream among `videos` for quality `q`,
/// or `None` when the quality names a resolution that no video stream has.
pub fn default_video_index(videos: &Vec<MediaPlaylist>, quality: Quality) -> (r: Option<usize>)
    requires
        quality == Quality::Lowest ==> videos@.len() > 0,
    ensures
        match r {
            Some(k) => is_default_video(videos@, quality, k as int),
            None => lacks_default_video(videos@, quality),
        },
{
    match resolution_of(quality) {
        None => {
            if quality == Quality::Lowest {
                Some(videos.len() - 1)
            } else {
                Some(0)
            }
        },
        Some((w, h)) => {
            let n = videos.len();
            for k in 0..n
                invariant
                    n == videos@.len(),
                    quality_resolution(quality) == Some((w, h)),
                    forall|j: int| 0 <= j < k ==> !stream_has_resolution(#[trigger] videos@[j], w, h),
            {
                if videos[k].has_resolution(w, h) {
                    return Some(k);
                }
            }
            None
        },
    }
}

/// The streams of a master playlist grouped by media type, each group in the
/// playlist's order.
pub struct StreamGroups {
    pub video: Vec<MediaPlaylist>,
    pub audio: Vec<MediaPlaylist>,
    pub subtitles: Vec<MediaPlaylist>,
    pub undefined: Vec<MediaPlaylist>,
}

impl MasterPlaylist {
    /// The playlist's streams grouped by media type.
    pub fn into_groups(self) -> (g: StreamGroups)
        ensures
            g.video@ == of_type(self.streams@, MediaType::Video),
            g.audio@ == of_type(self.streams@, MediaType::Audio),
            g.subtitles@ == of_type(self.streams@, MediaType::Subtitles),
            g.undefined@ == of_type(self.streams@, MediaType::Undefined),
    {
        let ghost s = self.streams@;
        let mut video: Vec<MediaPlaylist> = Vec::new();
        let mut audio: Vec<MediaPlaylist> = Vec::new();
        let mut subtitles: Vec<MediaPlaylist> = Vec::new();
        let mut undefined: Vec<MediaPlaylist> = Vec::new();
        for stream in it: self.streams
            invariant
                it.seq() == s,
                video@ == of_type(s.take(it.index() as int), MediaType::Video),
                audio@ == of_type(s.take(it.index() as int), MediaType::Audio),
                subtitles@ == of_type(s.take(it.index() as int), MediaType::Subtitles),
                undefined@ == of_type(s.take(it.index() as int), MediaType::Undefined),
        {
            let ghost i = it.index() as int;
            assert(s.take(i + 1).drop_last() =~= s.take(i));
            assert(s.take(i + 1).last() == stream);
            match stream.media_type {
                MediaType::Audio => audio.push(stream),
                MediaType::Subtitles => subtitles.push(stream),
                MediaType::Undefined => undefined.push(stream),
                MediaType::Video => video.push(stream),
            }
        }
        assert(s.take(s.len() as int) =~= s);
        StreamGroups { video, audio, subtitles, undefined }
    }
}

/// One line of the stream menu: a heading, or a stream's description with
/// whether it is chosen by default.
#[derive(Debug)]
pub enum MenuEntry {
    Separator(String),
    Choice(String, bool),
}

/// The text of a menu line.
pub enum EntryView {
    Separator(Seq<char>),
    Choice(Seq<char>, bool),
}

impl View for MenuEntry {
    type V = EntryView;

    open spec fn view(&self) -> EntryView {
        match self {
            MenuEntry::Separator(t) => EntryView::Separator(t@),
            MenuEntry::Choice(t, b) => EntryView::Choice(t@, *b),
        }
    }
}

/// The texts of menu lines.
pub open spec fn entry_views(es: Seq<MenuEntry>) -> Seq<EntryView> {
    es.map_values(|e: MenuEntry| e@)
}

/// The numbers from `start` up to, not including, `end`.
#[derive(Clone, Copy, Debug, PartialEq, Eq, Structural)]
pub struct NumberRange {
    pub start: usize,
    pub end: usize,
}

/// Whether `i` lies in range `r`.
pub open spec fn in_range(r: NumberRange, i: int) -> bool {
    r.start <= i < r.end
}

impl NumberRange {
    /// Whether `i` lies in the range.
    pub fn contains(&self, i: usize) -> (b: bool)
        ensures
            b == in_range(*self, i as int),
    {
        self.start <= i && i < self.end
    }
}

/// The menu numbers that choose video, audio and subtitle streams.
#[derive(Clone, Copy, Debug, PartialEq, Eq, Structural)]
pub struct ChoiceRanges {
    pub video: NumberRange,
    pub audio: NumberRange,
    pub subtitles: NumberRange,
}

/// The heading above the video streams.
pub open spec fn video_heading() -> Seq<char> {
    "─────── Video Streams ────────"@
}

/// The heading above the audio streams.
pub open spec fn audio_heading() -> Seq<char> {
    "─────── Audio Streams ────────"@
}

/// The heading above the subtitle streams.
pub open spec fn subtitle_heading() -> Seq<char> {
    "────── Subtitle Streams ──────"@
}

/// The menu: a heading and the descriptions of the video streams, the default
/// one chosen; a heading and the audio streams, the first chosen; a heading and
/// the subtitle streams, the first chosen.
pub open spec fn menu_entries(
    video: Seq<MediaPlaylist>,
    audio: Seq<MediaPlaylist>,
    subtitles: Seq<MediaPlaylist>,
    default_video: int,
) -> Seq<EntryView> {
    seq![EntryView::Separator(video_heading())] + Seq::new(
        video.len(),
        |i: int| EntryView::Choice(video_description(video[i]), i == default_video),
    ) + seq![EntryView::Separator(audio_heading())] + Seq::new(
        audio.len(),
        |i: int| EntryView::Choice(audio_description(audio[i]), i == 0),
    ) + seq![EntryView::Separator(subtitle_heading())] + Seq::new(
        subtitles.len(),
        |i: int| EntryView::Choice(subtitle_description(subtitles[i]), i == 0),
    )
}

/// Whether `r` holds the menu numbers for `nv` video, `na` audio and `ns`
/// subtitle streams: when the menu is `numbered`, streams are numbered from 1
/// without counting the headings; otherwise a stream's number is its position
/// among all menu lines, headings included.
pub open spec fn choice_ranges(r: ChoiceRanges, nv: int, na: int, ns: int, numbered: bool) -> bool {
    let gap: int = if numbered { 0 } else { 1 };
    &&& r.video.start == 1 && r.video.end == nv + 1
    &&& r.audio.start == nv + 1 + gap && r.audio.end == nv + na + 1 + gap
    &&& r.subtitles.start == nv + na + 1 + 2 * gap && r.subtitles.end == nv + na + ns + 1 + 2 * gap
}

/// How streams are chosen: in an interactive menu, or from a numbered listing,
/// either taking its defaults or asking for the numbers.
#[derive(Clone, Copy, Debug, PartialEq, Eq, Structural)]
pub enum PromptMode {
    Menu,
    Listing,
    ListingWithQuestion,
}

/// The way of choosing for the given flags: a numbered listing when prompts
/// are skipped or raw, asking for numbers only when they are raw and not
/// skipped; the interactive menu otherwise.
pub open spec fn prompt_mode_for(skip_prompts: bool, raw_prompts: bool) -> PromptMode {
    if !(skip_prompts || raw_prompts) {
        PromptMode::Menu
    } else if raw_prompts && !skip_prompts {
        PromptMode::ListingWithQuestion
    } else {
        PromptMode::Listing
    }
}

/// The way of choosing streams for the given flags.
pub fn prompt_mode(skip_prompts: bool, raw_prompts: bool) -> (m: PromptMode)
    ensures
        m == prompt_mode_for(skip_prompts, raw_prompts),
{
    if !(skip_prompts || raw_prompts) {
        PromptMode::Menu
    } else if raw_prompts && !skip_prompts {
        PromptMode::ListingWithQuestion
    } else {
        PromptMode::Listing
    }
}

/// The streams to choose from, the menu that offers them, and the numbers that
/// choose them.
pub struct StreamMenu {
    pub video: Vec<MediaPlaylist>,
    pub audio: Vec<MediaPlaylist>,
    pub subtitles: Vec<MediaPlaylist>,
    pub default_video: usize,
    pub entries: Vec<MenuEntry>,
    pub ranges: ChoiceRanges,
}

proof fn lemma_of_type_grows(s: Seq<MediaPlaylist>, k: int)
    requires
        0 <= k <= s.len(),
    ensures
        of_type(s.take(k), MediaType::Video).len() <= of_type(s, MediaType::Video).len(),
    decreases s.len() - k,
{
    if k < s.len() {
        lemma_of_type_grows(s, k + 1);
        assert(s.take(k + 1).drop_last() =~= s.take(k));
    } else {
        assert(s.take(k) =~= s);
    }
}

/// The number of streams of each media type add up to the number of streams.
pub proof fn lemma_of_type_lengths(s: Seq<MediaPlaylist>)
    ensures
        of_type(s, MediaType::Video).len() + of_type(s, MediaType::Audio).len() + of_type(
            s,
            MediaType::Subtitles,
        ).len() + of_type(s, MediaType::Undefined).len() == s.len(),
    decreases s.len(),
{
    if s.len() > 0 {
        lemma_of_type_lengths(s.drop_last());
    }
}

fn push_choices(
    entries: &mut Vec<MenuEntry>,
    streams: &Vec<MediaPlaylist>,
    kind: MediaType,
    chosen: usize,
)
    requires
        kind != MediaType::Undefined,
    ensures
        entry_views(final(entries)@) == entry_views(old(entries)@) + Seq::new(
            streams@.len(),
            |i: int|
                EntryView::Choice(
                    match kind {
                        MediaType::Video => video_description(streams@[i]),
                        MediaType::Audio => audio_description(streams@[i]),
                        _ => subtitle_description(streams@[i]),
                    },
                    i == chosen,
                ),
        ),
{
    let ghost start = entry_views(entries@);
    let n = streams.len();
    for i in 0..n
        invariant
            n == streams@.len(),
            kind != MediaType::Undefined,
            entry_views(entries@) == start + Seq::new(
                i as nat,
                |k: int|
                    EntryView::Choice(
                        match kind {
                            MediaType::Video => video_description(streams@[k]),
                            MediaType::Audio => audio_description(streams@[k]),
                            _ => subtitle_description(streams@[k]),
                        },
                        k == chosen,
                    ),
            ),
    {
        let text = match kind {
            MediaType::Video => streams[i].display_video_stream(),
            MediaType::Audio => streams[i].display_audio_stream(),
            _ => streams[i].display_subtitle_stream(),
        };
        let ghost before = entries@;
        let ghost tv = text@;
        entries.push(MenuEntry::Choice(text, i == chosen));
        assert(entries@ == before.push(MenuEntry::Choice(text, i == chosen)));
        assert(entry_views(entries@) =~= entry_views(before).push(EntryView::Choice(tv, i == chosen)));
        assert(entry_views(entries@) =~= start + Seq::new(
            (i + 1) as nat,
            |k: int|
                EntryView::Choice(
                    match kind {
                        MediaType::Video => video_description(streams@[k]),
                        MediaType::Audio => audio_description(streams@[k]),
                        _ => subtitle_description(streams@[k]),
                    },
                    k == chosen,
                ),
        ));
    }
}

fn push_heading(entries: &mut Vec<MenuEntry>, heading: &str)
    ensures
        entry_views(final(entries)@) == entry_views(old(entries)@).push(EntryView::Separator(heading@)),
{
    let ghost before = entries@;
    entries.push(MenuEntry::Separator(String::from_str(heading)));
    assert(entry_views(entries@) =~= entry_views(before).push(EntryView::Separator(heading@)));
}

/// Whether a menu can be built from the streams `s` for quality `q`: the
/// lowest quality needs a video stream, and the menu's length must be countable.
pub open spec fn menu_possible(s: Seq<MediaPlaylist>, q: Quality) -> bool {
    &&& q == Quality::Lowest ==> of_type(s, MediaType::Video).len() > 0
    &&& s.len() + 3 <= usize::MAX
}

impl MasterPlaylist {
    /// Whether `stream_menu` can be asked for a menu for quality `quality`.
    pub fn menu_possible(&self, quality: Quality) -> (b: bool)
        ensures
            b == menu_possible(self.streams@, quality),
    {
        if self.streams.len() > usize::MAX - 3 {
            return false;
        }
        if quality != Quality::Lowest {
            return true;
        }
        let n = self.streams.len();
        let ghost s = self.streams@;
        for i in 0..n
            invariant
                n == s.len(),
                s == self.streams@,
                s.len() + 3 <= usize::MAX,
                quality == Quality::Lowest,
                of_type(s.take(i as int), MediaType::Video).len() == 0,
        {
            assert(s.take(i + 1).drop_last() =~= s.take(i as int));
            if self.streams[i].media_type == MediaType::Video {
                proof {
                    assert(s.take(i + 1).last() == s[i as int]);
                    assert(of_type(s.take(i + 1), MediaType::Video).len() == 1);
                    lemma_of_type_grows(s, i + 1);
                }
                return true;
            }
        }
        assert(s.take(n as int) =~= s);
        false
    }

    /// The menu of the playlist's video, audio and subtitle streams, with the
    /// default video stream for `quality` chosen, numbered as `numbered` says;
    /// `None` when the quality names a resolution that no video stream has.
    pub fn stream_menu(self, quality: Quality, numbered: bool) -> (r: Option<StreamMenu>)
        requires
            menu_possible(self.streams@, quality),
        ensures
            match r {
                None => lacks_default_video(of_type(self.streams@, MediaType::Video), quality),
                Some(m) => {
                    &&& m.video@ == of_type(self.streams@, MediaType::Video)
                    &&& m.audio@ == of_type(self.streams@, MediaType::Audio)
                    &&& m.subtitles@ == of_type(self.streams@, MediaType::Subtitles)
                    &&& is_default_video(m.video@, quality, m.default_video as int)
                    &&& entry_views(m.entries@) == menu_entries(
                        m.video@,
                        m.audio@,
                        m.subtitles@,
                        m.default_video as int,
                    )
                    &&& choice_ranges(
                        m.ranges,
                        m.video@.len() as int,
                        m.audio@.len() as int,
                        m.subtitles@.len() as int,
                        numbered,
                    )
                },
            },
    {
        proof {
            lemma_of_type_lengths(self.streams@);
        }
        let groups = self.into_groups();
        let default_video = match default_video_index(&groups.video, quality) {
            Some(k) => k,
            None => return None,
        };
        let StreamGroups { video, audio, subtitles, undefined: _ } = groups;
        let nv = video.len();
        let na = audio.len();
        let ns = subtitles.len();
        let mut entries: Vec<MenuEntry> = Vec::new();
        push_heading(&mut entries, "─────── Video Streams ────────");
        assert(entry_views(entries@) =~= seq![EntryView::Separator(video_heading())]);
        push_choices(&mut entries, &video, MediaType::Video, default_video);
        push_heading(&mut entries, "─────── Audio Streams ────────");
        push_choices(&mut entries, &audio, MediaType::Audio, 0);
        push_heading(&mut entries, "────── Subtitle Streams ──────");
        push_choices(&mut entries, &subtitles, MediaType::Subtitles, 0);
        assert(entry_views(entries@) =~= menu_entries(video@, audio@, subtitles@, default_video as int));
        let gap: usize = if numbered { 0 } else { 1 };
        let ranges = ChoiceRanges {
            video: NumberRange { start: 1, end: nv + 1 },
            audio: NumberRange { start: nv + 1 + gap, end: nv + na + 1 + gap },
            subtitles: NumberRange { start: nv + na + 1 + 2 * gap, end: nv + na + ns + 1 + 2 * gap },
        };
        Some(StreamMenu { video, audio, subtitles, default_video, entries, ranges })
    }
}

/// The number of stream lines (not headings) in `es`.
pub open spec fn choice_count(es: Seq<EntryView>) -> nat
    decreases es.len(),
{
    if es.len() == 0 {
        0
    } else {
        choice_count(es.drop_last()) + if es.last() is Choice {
            1nat
        } else {
            0nat
        }
    }
}

/// `t` with every box-drawing `─` written as `-`.
pub open spec fn dashed(t: Seq<char>) -> Seq<char> {
    t.map_values(|c: char| if c == '─' { '-' } else { c })
}

/// A menu line as the numbered listing prints it: a heading drawn with `-`, or
/// the stream's number right-aligned in two columns, `) [`, `x` when chosen by
/// default (else a space), `] ` and the description.
pub open spec fn listing_line(e: EntryView, number: nat) -> Seq<char> {
    match e {
        EntryView::Separator(t) => dashed(t),
        EntryView::Choice(m, chosen) => pad_start(decimal(number), 2) + ") ["@ + (if chosen {
            "x"@
        } else {
            " "@
        }) + "] "@ + m,
    }
}

/// The numbered listing of a menu: stream lines are numbered from 1, headings
/// are not counted.
pub open spec fn listing(es: Seq<EntryView>) -> Seq<Seq<char>>
    decreases es.len(),
{
    if es.len() == 0 {
        seq![]
    } else {
        listing(es.drop_last()).push(listing_line(es.last(), choice_count(es.drop_last()) + 1))
    }
}

/// The numbers of the stream lines chosen by default, in menu order.
pub open spec fn default_numbers(es: Seq<EntryView>) -> Seq<usize>
    decreases es.len(),
{
    if es.len() == 0 {
        seq![]
    } else {
        let d = default_numbers(es.drop_last());
        match es.last() {
            EntryView::Choice(_, true) => d.push((choice_count(es.drop_last()) + 1) as usize),
            _ => d,
        }
    }
}

proof fn lemma_choice_count_bound(es: Seq<EntryView>)
    ensures
        choice_count(es) <= es.len(),
    decreases es.len(),
{
    if es.len() > 0 {
        lemma_choice_count_bound(es.drop_last());
    }
}

fn dash_heading(t: &str) -> (r: String)
    ensures
        r@ == dashed(t@),
{
    let v = chars_of(t);
    let n = v.len();
    let mut out = String::new();
    for i in 0..n
        invariant
            n == v@.len(),
            v@ == t@,
            out@ == dashed(t@.take(i as int)),
    {
        assert(dashed(t@.take(i + 1)) =~= dashed(t@.take(i as int)).push(
            if v@[i as int] == '─' { '-' } else { v@[i as int] },
        ));
        if v[i] == '─' {
            push_char(&mut out, '-');
        } else {
            push_char(&mut out, v[i]);
        }
    }
    assert(t@.take(n as int) =~= t@);
    out
}

fn choice_line(number: usize, chosen: bool, message: &str) -> (r: String)
    ensures
        r@ == listing_line(EntryView::Choice(message@, chosen), number as nat),
{
    let digits = decimal_string(number as u64);
    let mut out = String::new();
    push_padded_start(&mut out, digits.as_str(), 2);
    append_str(&mut out, ") [");
    if chosen {
        append_str(&mut out, "x");
    } else {
        append_str(&mut out, " ");
    }
    append_str(&mut out, "] ");
    append_str(&mut out, message);
    assert(out@ =~= listing_line(EntryView::Choice(message@, chosen), number as nat));
    out
}

/// The lines of the numbered listing of a menu, and the numbers of the
/// streams it chooses by default.
pub fn numbered_listing(entries: &Vec<MenuEntry>) -> (r: (Vec<String>, Vec<usize>))
    ensures
        r.0@.len() == listing(entry_views(entries@)).len(),
        forall|k: int| 0 <= k < r.0@.len() ==> #[trigger] r.0@[k]@ == listing(entry_views(entries@))[k],
        r.1@ == default_numbers(entry_views(entries@)),
{
    let ghost es = entry_views(entries@);
    let n = entries.len();
    let mut lines: Vec<String> = Vec::new();
    let mut defaults: Vec<usize> = Vec::new();
    let mut count: usize = 0;
    for i in 0..n
        invariant
            n == entries@.len(),
            es == entry_views(entries@),
            count == choice_count(es.take(i as int)),
            lines@.len() == listing(es.take(i as int)).len(),
            forall|k: int| 0 <= k < lines@.len() ==> #[trigger] lines@[k]@ == listing(es.take(i as int))[k],
            defaults@ == default_numbers(es.take(i as int)),
    {
        let ghost pre = es.take(i as int);
        let ghost next = es.take(i + 1);
        assert(next.drop_last() =~= pre);
        assert(next.last() == entries@[i as int]@);
        proof {
            lemma_choice_count_bound(pre);
        }
        match &entries[i] {
            MenuEntry::Separator(t) => {
                lines.push(dash_heading(t.as_str()));
            },
            MenuEntry::Choice(message, chosen) => {
                lines.push(choice_line(count + 1, *chosen, message.as_str()));
                if *chosen {
                    defaults.push(count + 1);
                }
                count = count + 1;
            },
        }
    }
    assert(es.take(n as int) =~= es);
    (lines, defaults)
}

/// The numbers written in the comma-separated `pieces`: each piece, trimmed,
/// that reads as a `usize`; the others are skipped.
pub open spec fn numbers_in(pieces: Seq<Seq<char>>) -> Seq<usize>
    decreases pieces.len(),
{
    if pieces.len() == 0 {
        seq![]
    } else {
        let prev = numbers_in(pieces.drop_last());
        match parsed_usize(trim(pieces.last())) {
            Some(n) => prev.push(n),
            None => prev,
        }
    }
}

/// The stream numbers that an answer typed at the numbered listing chooses:
/// the default numbers for a blank answer, else the comma-separated numbers in it.
pub open spec fn chosen_numbers(input: Seq<char>, defaults: Seq<usize>) -> Seq<usize> {
    if trim(input).len() == 0 {
        defaults
    } else {
        numbers_in(split_on(trim(input), ','))
    }
}

/// The stream numbers chosen by the answer `input`, with `defaults` for a blank answer.
pub fn numbers_from_input(input: &str, defaults: Vec<usize>) -> (r: Vec<usize>)
    ensures
        r@ == chosen_numbers(input@, defaults@),
{
    let t = trimmed(input);
    if t.unicode_len() == 0 {
        return defaults;
    }
    let pieces = split_at_char(t.as_str(), ',');
    let ghost ps = split_on(trim(input@), ',');
    let n = pieces.len();
    let mut out: Vec<usize> = Vec::new();
    for i in 0..n
        invariant
            n == ps.len(),
            pieces@.len() == n,
            forall|k: int| 0 <= k < n ==> #[trigger] pieces@[k]@ == ps[k],
            out@ == numbers_in(ps.take(i as int)),
    {
        assert(ps.take(i + 1).drop_last() =~= ps.take(i as int));
        assert(pieces@[i as int]@ == ps[i as int]);
        let piece = trimmed(pieces[i].as_str());
        match parse_usize(piece.as_str()) {
            Some(x) => out.push(x),
            None => {},
        }
    }
    assert(ps.take(n as int) =~= ps);
    out
}

/// The state of choosing streams by number: the streams still offered, the
/// number subtracted from a menu number to find its position among them, and
/// what has been chosen (subtitles apart), with the descriptions announced.
pub struct PickState {
    pub video: Seq<MediaPlaylist>,
    pub audio: Seq<MediaPlaylist>,
    pub subtitles: Seq<MediaPlaylist>,
    pub video_offset: int,
    pub audio_offset: int,
    pub subtitle_offset: int,
    pub streams: Seq<MediaPlaylist>,
    pub chosen_subtitles: Seq<MediaPlaylist>,
    pub announced: Seq<Seq<char>>,
}

/// The state before any stream is chosen: each group offered whole, each
/// offset the first number of its range.
pub open spec fn initial_pick(
    video: Seq<MediaPlaylist>,
    audio: Seq<MediaPlaylist>,
    subtitles: Seq<MediaPlaylist>,
    ranges: ChoiceRanges,
) -> PickState {
    PickState {
        video,
        audio,
        subtitles,
        video_offset: ranges.video.start as int,
        audio_offset: ranges.audio.start as int,
        subtitle_offset: ranges.subtitles.start as int,
        streams: seq![],
        chosen_subtitles: seq![],
        announced: seq![],
    }
}

/// Choosing number `i`: a number in a group's range takes out of that group the
/// stream at `i` minus the group's offset, adds it to the chosen streams (or
/// subtitles) and announces its description, and moves the offset up by one;
/// a number in no range changes nothing. `None` when the position falls
/// outside the group, where the choosing fails.
pub open spec fn pick_step(st: PickState, ranges: ChoiceRanges, i: int) -> Option<PickState> {
    if in_range(ranges.video, i) {
        let j = i - st.video_offset;
        if 0 <= j < st.video.len() {
            Some(
                PickState {
                    video: st.video.remove(j),
                    video_offset: st.video_offset + 1,
                    streams: st.streams.push(st.video[j]),
                    announced: st.announced.push(stream_description(st.video[j])),
                    ..st
                },
            )
        } else {
            None
        }
    } else if in_range(ranges.audio, i) {
        let j = i - st.audio_offset;
        if 0 <= j < st.audio.len() {
            Some(
                PickState {
                    audio: st.audio.remove(j),
                    audio_offset: st.audio_offset + 1,
                    streams: st.streams.push(st.audio[j]),
                    announced: st.announced.push(stream_description(st.audio[j])),
                    ..st
                },
            )
        } else {
            None
        }
    } else if in_range(ranges.subtitles, i) {
        let j = i - st.subtitle_offset;
        if 0 <= j < st.subtitles.len() {
            Some(
                PickState {
                    subtitles: st.subtitles.remove(j),
                    subtitle_offset: st.subtitle_offset + 1,
                    chosen_subtitles: st.chosen_subtitles.push(st.subtitles[j]),
                    announced: st.announced.push(stream_description(st.subtitles[j])),
                    ..st
                },
            )
        } else {
            None
        }
    } else {
        Some(st)
    }
}

/// Choosing the numbers of `numbers` in order, from state `st`.
pub open spec fn pick_all(st: PickState, ranges: ChoiceRanges, numbers: Seq<usize>) -> Option<
    PickState,
>
    decreases numbers.len(),
{
    if numbers.len() == 0 {
        Some(st)
    } else {
        match pick_all(st, ranges, numbers.drop_last()) {
            Some(s) => pick_step(s, ranges, numbers.last() as int),
            None => None,
        }
    }
}

/// The streams chosen from a menu: audio and video streams, subtitle streams,
/// and the description of each chosen stream in the order it was chosen.
pub struct Selection {
    pub streams: Vec<MediaPlaylist>,
    pub subtitles: Vec<MediaPlaylist>,
    pub announcements: Vec<String>,
}

/// Whether a selection holds what the state `st` has chosen.
pub open spec fn selection_matches(r: Selection, st: PickState) -> bool {
    &&& r.streams@ == st.streams
    &&& r.subtitles@ == st.chosen_subtitles
    &&& r.announcements@.len() == st.announced.len()
    &&& forall|k: int| 0 <= k < st.announced.len() ==> #[trigger] r.announcements@[k]@ == st.announced[k]
}

proof fn lemma_pick_prefix(st: PickState, ranges: ChoiceRanges, numbers: Seq<usize>, k: int)
    requires
        0 <= k <= numbers.len(),
        pick_all(st, ranges, numbers.take(k)) is None,
    ensures
        pick_all(st, ranges, numbers) is None,
    decreases numbers.len() - k,
{
    if k < numbers.len() {
        assert(numbers.take(k + 1).drop_last() =~= numbers.take(k));
        lemma_pick_prefix(st, ranges, numbers, k + 1);
    } else {
        assert(numbers.take(k) =~= numbers);
    }
}

/// The state of choosing from the menu `m` before any stream is chosen.
pub open spec fn menu_start(m: StreamMenu) -> PickState {
    initial_pick(m.video@, m.audio@, m.subtitles@, m.ranges)
}

impl StreamMenu {
    /// How many of the menu numbers `numbers`, taken in order, can be chosen
    /// before one falls outside what is left of its group: all of them, or the
    /// count before the first that fails.
    pub fn pickable_count(&self, numbers: &Vec<usize>) -> (k: usize)
        ensures
            k <= numbers@.len(),
            pick_all(menu_start(*self), self.ranges, numbers@.take(k as int)) is Some,
            k < numbers@.len() ==> pick_all(menu_start(*self), self.ranges, numbers@.take(k + 1))
                is None,
    {
        let ghost st0 = menu_start(*self);
        let ranges = self.ranges;
        let mut video_left = self.video.len();
        let mut audio_left = self.audio.len();
        let mut subtitles_left = self.subtitles.len();
        let mut video_offset = ranges.video.start;
        let mut audio_offset = ranges.audio.start;
        let mut subtitle_offset = ranges.subtitles.start;
        let n = numbers.len();
        for k in 0..n
            invariant
                n == numbers@.len(),
                ranges == self.ranges,
                st0 == menu_start(*self),
                pick_all(st0, ranges, numbers@.take(k as int)) matches Some(st) && {
                    &&& st.video.len() == video_left
                    &&& st.audio.len() == audio_left
                    &&& st.subtitles.len() == subtitles_left
                    &&& st.video_offset == video_offset
                    &&& st.audio_offset == audio_offset
                    &&& st.subtitle_offset == subtitle_offset
                },
        {
            let ghost pre = numbers@.take(k as int);
            assert(numbers@.take(k + 1).drop_last() =~= pre);
            let i = numbers[k];
            if ranges.video.contains(i) {
                if i < video_offset || i - video_offset >= video_left {
                    return k;
                }
                video_left = video_left - 1;
                video_offset = video_offset + 1;
            } else if ranges.audio.contains(i) {
                if i < audio_offset || i - audio_offset >= audio_left {
                    return k;
                }
                audio_left = audio_left - 1;
                audio_offset = audio_offset + 1;
            } else if ranges.subtitles.contains(i) {
                if i < subtitle_offset || i - subtitle_offset >= subtitles_left {
                    return k;
                }
                subtitles_left = subtitles_left - 1;
                subtitle_offset = subtitle_offset + 1;
            }
        }
        n
    }

    /// Whether choosing the menu numbers `numbers` in order succeeds: no number
    /// in a group's range falls outside what is left of that group.
    pub fn can_pick(&self, numbers: &Vec<usize>) -> (b: bool)
        ensures
            b == pick_all(menu_start(*self), self.ranges, numbers@) is Some,
    {
        let k = self.pickable_count(numbers);
        if k < numbers.len() {
            proof {
                lemma_pick_prefix(menu_start(*self), self.ranges, numbers@, k + 1);
            }
            false
        } else {
            assert(numbers@.take(k as int) =~= numbers@);
            true
        }
    }

    /// The streams that the menu numbers `numbers`, taken in order, choose.
    pub fn pick(self, numbers: &Vec<usize>) -> (r: Selection)
        requires
            pick_all(menu_start(self), self.ranges, numbers@) is Some,
        ensures
            selection_matches(r, pick_all(menu_start(self), self.ranges, numbers@).unwrap()),
    {
        let ghost st0 = menu_start(self);
        let StreamMenu { mut video, mut audio, mut subtitles, default_video: _, entries: _, ranges } =
            self;
        let mut video_offset = ranges.video.start;
        let mut audio_offset = ranges.audio.start;
        let mut subtitle_offset = ranges.subtitles.start;
        let mut streams: Vec<MediaPlaylist> = Vec::new();
        let mut chosen_subtitles: Vec<MediaPlaylist> = Vec::new();
        let mut announcements: Vec<String> = Vec::new();
        let n = numbers.len();
        for k in 0..n
            invariant
                n == numbers@.len(),
                pick_all(st0, ranges, numbers@) is Some,
                pick_all(st0, ranges, numbers@.take(k as int)) matches Some(st) && {
                    &&& st.video == video@
                    &&& st.audio == audio@
                    &&& st.subtitles == subtitles@
                    &&& st.video_offset == video_offset
                    &&& st.audio_offset == audio_offset
                    &&& st.subtitle_offset == subtitle_offset
                    &&& st.streams == streams@
                    &&& st.chosen_subtitles == chosen_subtitles@
                    &&& st.announced.len() == announcements@.len()
                    &&& forall|q: int|
                        0 <= q < st.announced.len() ==> #[trigger] announcements@[q]@
                            == st.announced[q]
                },
        {
            let ghost pre = numbers@.take(k as int);
            assert(numbers@.take(k + 1).drop_last() =~= pre);
            proof {
                if pick_all(st0, ranges, numbers@.take(k + 1)) is None {
                    lemma_pick_prefix(st0, ranges, numbers@, k + 1);
                }
            }
            let i = numbers[k];
            if ranges.video.contains(i) {
                let stream = video.remove(i - video_offset);
                announcements.push(stream.display_stream());
                streams.push(stream);
                video_offset = video_offset + 1;
            } else if ranges.audio.contains(i) {
                let stream = audio.remove(i - audio_offset);
                announcements.push(stream.display_stream());
                streams.push(stream);
                audio_offset = audio_offset + 1;
            } else if ranges.subtitles.contains(i) {
                let stream = subtitles.remove(i - subtitle_offset);
                announcements.push(stream.display_stream());
                chosen_subtitles.push(stream);
                subtitle_offset = subtitle_offset + 1;
            }
        }
        assert(numbers@.take(n as int) =~= numbers@);
        Selection { streams, subtitles: chosen_subtitles, announcements }
    }
}

/// The line that echoes an interactive answer: the chosen menu texts, each
/// with its white space collapsed, joined by ` | `.
pub open spec fn answer_line(texts: Seq<Seq<char>>) -> Seq<char> {
    join_with(texts.map_values(|t: Seq<char>| collapse_white_space(t)), " | "@)
}

/// The line that echoes the menu texts `texts` chosen in an interactive answer.
pub fn answer_summary(texts: &Vec<String>) -> (r: String)
    ensures
        r@ == answer_line(texts@.map_values(|t: String| t@)),
{
    let ghost ts = texts@.map_values(|t: String| t@);
    let n = texts.len();
    let mut out = String::new();
    for i in 0..n
        invariant
            n == texts@.len(),
            ts == texts@.map_values(|t: String| t@),
            out@ == answer_line(ts.take(i as int)),
    {
        let ghost pre = ts.take(i as int).map_values(|t: Seq<char>| collapse_white_space(t));
        let piece = collapse_spaces(texts[i].as_str());
        assert(ts.take(i + 1).map_values(|t: Seq<char>| collapse_white_space(t)) =~= pre.push(
            piece@,
        ));
        proof {
            lemma_join_push(pre, " | "@, piece@);
        }
        if i > 0 {
            append_str(&mut out, " | ");
        }
        append_str(&mut out, piece.as_str());
    }
    assert(ts.take(n as int) =~= ts);
    out
}

/// The audio and video streams that the menu numbers `numbers` stand for: the
/// stream at a number's position in its range, for each number in the video
/// or audio range, in order.
pub open spec fn numbered_streams(
    video: Seq<MediaPlaylist>,
    audio: Seq<MediaPlaylist>,
    ranges: ChoiceRanges,
    numbers: Seq<usize>,
) -> Seq<MediaPlaylist>
    decreases numbers.len(),
{
    if numbers.len() == 0 {
        seq![]
    } else {
        let prev = numbered_streams(video, audio, ranges, numbers.drop_last());
        let i = numbers.last() as int;
        if in_range(ranges.video, i) {
            prev.push(video[i - ranges.video.start])
        } else if in_range(ranges.audio, i) {
            prev.push(audio[i - ranges.audio.start])
        } else {
            prev
        }
    }
}

/// The subtitle streams that the menu numbers `numbers` stand for.
pub open spec fn numbered_subtitles(
    subtitles: Seq<MediaPlaylist>,
    ranges: ChoiceRanges,
    numbers: Seq<usize>,
) -> Seq<MediaPlaylist>
    decreases numbers.len(),
{
    if numbers.len() == 0 {
        seq![]
    } else {
        let prev = numbered_subtitles(subtitles, ranges, numbers.drop_last());
        let i = numbers.last() as int;
        if in_range(ranges.video, i) || in_range(ranges.audio, i) {
            prev
        } else if in_range(ranges.subtitles, i) {
            prev.push(subtitles[i - ranges.subtitles.start])
        } else {
            prev
        }
    }
}

/// Whether each range of `ranges` has as many numbers as its group has streams.
pub open spec fn ranges_cover(ranges: ChoiceRanges, nv: int, na: int, ns: int) -> bool {
    &&& ranges.video.end - ranges.video.start == nv
    &&& ranges.audio.end - ranges.audio.start == na
    &&& ranges.subtitles.end - ranges.subtitles.start == ns
}

/// Whether `numbers` is strictly increasing.
pub open spec fn increasing(numbers: Seq<usize>) -> bool {
    forall|a: int, b: int| 0 <= a < b < numbers.len() ==> numbers[a] < numbers[b]
}

/// What is left of a group, `rest` with offset `offset`, after choosing from
/// `orig` (numbered by `r`) only numbers below `bound`: the chosen count is
/// `offset - r.start`, and every stream numbered `bound` or above is still there,
/// shifted down by that count.
pub open spec fn group_intact(
    rest: Seq<MediaPlaylist>,
    offset: int,
    orig: Seq<MediaPlaylist>,
    r: NumberRange,
    bound: int,
) -> bool {
    let taken = offset - r.start;
    &&& 0 <= taken
    &&& taken <= if bound > r.start { bound - r.start } else { 0 }
    &&& rest.len() == orig.len() - taken
    &&& forall|p: int|
        0 <= p < orig.len() && p + r.start >= bound ==> #[trigger] orig[p] == rest[p - taken]
}

proof fn lemma_pick_increasing_inner(m: StreamMenu, numbers: Seq<usize>)
    requires
        ranges_cover(m.ranges, m.video@.len() as int, m.audio@.len() as int, m.subtitles@.len() as int),
        increasing(numbers),
    ensures
        pick_all(menu_start(m), m.ranges, numbers) matches Some(st) && {
            let bound: int = if numbers.len() == 0 { 0 } else { numbers.last() + 1 };
            &&& st.streams == numbered_streams(m.video@, m.audio@, m.ranges, numbers)
            &&& st.chosen_subtitles == numbered_subtitles(m.subtitles@, m.ranges, numbers)
            &&& group_intact(st.video, st.video_offset, m.video@, m.ranges.video, bound)
            &&& group_intact(st.audio, st.audio_offset, m.audio@, m.ranges.audio, bound)
            &&& group_intact(st.subtitles, st.subtitle_offset, m.subtitles@, m.ranges.subtitles, bound)
        },
    decreases numbers.len(),
{
    let ranges = m.ranges;
    if numbers.len() == 0 {
        let st = menu_start(m);
        assert(group_intact(st.video, st.video_offset, m.video@, ranges.video, 0));
        assert(group_intact(st.audio, st.audio_offset, m.audio@, ranges.audio, 0));
        assert(group_intact(st.subtitles, st.subtitle_offset, m.subtitles@, ranges.subtitles, 0));
    } else {
        let prev = numbers.drop_last();
        assert(increasing(prev));
        lemma_pick_increasing_inner(m, prev);
        let st = pick_all(menu_start(m), ranges, prev).unwrap();
        let b0: int = if prev.len() == 0 { 0 } else { prev.last() + 1 };
        let i = numbers.last() as int;
        if prev.len() > 0 {
            assert(prev.last() == numbers[numbers.len() - 2]);
            assert(numbers[numbers.len() - 2] < numbers[numbers.len() - 1]);
        }
        assert(i >= b0);
        let b1 = i + 1;
        if in_range(ranges.video, i) {
            let taken = st.video_offset - ranges.video.start;
            let p0 = i - ranges.video.start;
            assert(st.video[p0 - taken] == m.video@[p0]);
            let st2 = pick_step(st, ranges, i).unwrap();
            assert forall|p: int|
                0 <= p < m.video@.len() && p + ranges.video.start >= b1 implies #[trigger] m.video@[p]
                == st2.video[p - (taken + 1)] by {
                assert(m.video@[p] == st.video[p - taken]);
            }
            assert(group_intact(st2.video, st2.video_offset, m.video@, ranges.video, b1));
            assert(group_intact(st2.audio, st2.audio_offset, m.audio@, ranges.audio, b1));
            assert(group_intact(st2.subtitles, st2.subtitle_offset, m.subtitles@, ranges.subtitles, b1));
        } else if in_range(ranges.audio, i) {
            let taken = st.audio_offset - ranges.audio.start;
            let p0 = i - ranges.audio.start;
            assert(st.audio[p0 - taken] == m.audio@[p0]);
            let st2 = pick_step(st, ranges, i).unwrap();
            assert forall|p: int|
                0 <= p < m.audio@.len() && p + ranges.audio.start >= b1 implies #[trigger] m.audio@[p]
                == st2.audio[p - (taken + 1)] by {
                assert(m.audio@[p] == st.audio[p - taken]);
            }
            assert(group_intact(st2.video, st2.video_offset, m.video@, ranges.video, b1));
            assert(group_intact(st2.audio, st2.audio_offset, m.audio@, ranges.audio, b1));
            assert(group_intact(st2.subtitles, st2.subtitle_offset, m.subtitles@, ranges.subtitles, b1));
        } else if in_range(ranges.subtitles, i) {
            let taken = st.subtitle_offset - ranges.subtitles.start;
            let p0 = i - ranges.subtitles.start;
            assert(st.subtitles[p0 - taken] == m.subtitles@[p0]);
            let st2 = pick_step(st, ranges, i).unwrap();
            assert forall|p: int|
                0 <= p < m.subtitles@.len() && p + ranges.subtitles.start >= b1 implies #[trigger] m.subtitles@[p]
                == st2.subtitles[p - (taken + 1)] by {
                assert(m.subtitles@[p] == st.subtitles[p - taken]);
            }
            assert(group_intact(st2.video, st2.video_offset, m.video@, ranges.video, b1));
            assert(group_intact(st2.audio, st2.audio_offset, m.audio@, ranges.audio, b1));
            assert(group_intact(st2.subtitles, st2.subtitle_offset, m.subtitles@, ranges.subtitles, b1));
        } else {
            assert(group_intact(st.video, st.video_offset, m.video@, ranges.video, b1));
            assert(group_intact(st.audio, st.audio_offset, m.audio@, ranges.audio, b1));
            assert(group_intact(st.subtitles, st.subtitle_offset, m.subtitles@, ranges.subtitles, b1));
        }
    }
}

/// Choosing menu numbers in increasing order always succeeds and yields exactly
/// the streams listed under those numbers: for each number in the video or
/// audio range, the stream at that number's position in its group, and likewise
/// for subtitles.
pub proof fn lemma_increasing_numbers_pick_listed_streams(
    m: StreamMenu,
    numbered: bool,
    numbers: Seq<usize>,
)
    requires
        choice_ranges(
            m.ranges,
            m.video@.len() as int,
            m.audio@.len() as int,
            m.subtitles@.len() as int,
            numbered,
        ),
        increasing(numbers),
    ensures
        pick_all(menu_start(m), m.ranges, numbers) is Some,
        pick_all(menu_start(m), m.ranges, numbers).unwrap().streams == numbered_streams(
            m.video@,
            m.audio@,
            m.ranges,
            numbers,
        ),
        pick_all(menu_start(m), m.ranges, numbers).unwrap().chosen_subtitles == numbered_subtitles(
            m.subtitles@,
            m.ranges,
            numbers,
        ),
{
    lemma_pick_increasing_inner(m, numbers);
}

proof fn lemma_numbers_concat(x: Seq<EntryView>, y: Seq<EntryView>)
    requires
        x.len() + y.len() <= usize::MAX,
    ensures
        choice_count(x + y) == choice_count(x) + choice_count(y),
        default_numbers(x + y) == default_numbers(x) + default_numbers(y).map_values(
            |n: usize| (n + choice_count(x)) as usize,
        ),
    decreases y.len(),
{
    if y.len() == 0 {
        assert(x + y =~= x);
        assert(default_numbers(x) + default_numbers(y).map_values(
            |n: usize| (n + choice_count(x)) as usize,
        ) =~= default_numbers(x));
    } else {
        lemma_numbers_concat(x, y.drop_last());
        assert((x + y).drop_last() =~= x + y.drop_last());
        assert((x + y).last() == y.last());
        lemma_choice_count_bound(y.drop_last());
        lemma_choice_count_bound(x);
        let shift = |n: usize| (n + choice_count(x)) as usize;
        assert(default_numbers(x) + default_numbers(y).map_values(shift) =~= match y.last() {
            EntryView::Choice(_, true) => (default_numbers(x) + default_numbers(y.drop_last()).map_values(
                shift,
            )).push((choice_count(x + y.drop_last()) + 1) as usize),
            _ => default_numbers(x) + default_numbers(y.drop_last()).map_values(shift),
        });
    }
}

spec fn is_choice_with(e: EntryView, chosen: bool) -> bool {
    match e {
        EntryView::Choice(_, c) => c == chosen,
        _ => false,
    }
}

proof fn lemma_numbers_of_choices(blk: Seq<EntryView>, d: int)
    requires
        blk.len() < usize::MAX,
        forall|i: int| 0 <= i < blk.len() ==> is_choice_with(#[trigger] blk[i], i == d),
    ensures
        choice_count(blk) == blk.len(),
        default_numbers(blk) == if 0 <= d < blk.len() { seq![(d + 1) as usize] } else { seq![] },
    decreases blk.len(),
{
    if blk.len() > 0 {
        let prev = blk.drop_last();
        assert forall|i: int| 0 <= i < prev.len() implies is_choice_with(#[trigger] prev[i], i == d) by {
            assert(prev[i] == blk[i]);
        }
        lemma_numbers_of_choices(prev, d);
        assert(blk.last() == blk[blk.len() - 1]);
        if 0 <= d < prev.len() {
        } else if d == prev.len() {
            assert(default_numbers(blk) =~= seq![(d + 1) as usize]);
        }
    }
}

/// A one-element sequence of `x[k]`, or nothing when `k` is not a position of `x`.
pub open spec fn item_at(x: Seq<MediaPlaylist>, k: int) -> Seq<MediaPlaylist> {
    if 0 <= k < x.len() {
        seq![x[k]]
    } else {
        seq![]
    }
}

/// The menu numbers chosen by default in the numbered listing of a menu: the
/// default video stream's, the first audio stream's and the first subtitle
/// stream's, each when it exists.
pub open spec fn menu_default_numbers(nv: int, na: int, ns: int, d: int) -> Seq<usize> {
    (if 0 <= d < nv {
        seq![(d + 1) as usize]
    } else {
        seq![]
    }) + (if na > 0 {
        seq![(nv + 1) as usize]
    } else {
        seq![]
    }) + (if ns > 0 {
        seq![(nv + na + 1) as usize]
    } else {
        seq![]
    })
}

proof fn lemma_empty_heading(h: Seq<EntryView>, t: Seq<char>)
    requires
        h == seq![EntryView::Separator(t)],
    ensures
        choice_count(h) == 0,
        default_numbers(h) == Seq::<usize>::empty(),
{
    assert(h.drop_last() =~= Seq::<EntryView>::empty());
    assert(choice_count(Seq::<EntryView>::empty()) == 0);
    assert(default_numbers(Seq::<EntryView>::empty()) =~= seq![]);
}

#[verifier::rlimit(30)]
proof fn lemma_menu_numbers(
    v: Seq<MediaPlaylist>,
    a: Seq<MediaPlaylist>,
    s: Seq<MediaPlaylist>,
    d: int,
)
    requires
        v.len() + a.len() + s.len() + 3 <= usize::MAX,
    ensures
        default_numbers(menu_entries(v, a, s, d)) == menu_default_numbers(
            v.len() as int,
            a.len() as int,
            s.len() as int,
            d,
        ),
{
    let bv = Seq::new(v.len(), |i: int| EntryView::Choice(video_description(v[i]), i == d));
    let ba = Seq::new(a.len(), |i: int| EntryView::Choice(audio_description(a[i]), i == 0));
    let bs = Seq::new(s.len(), |i: int| EntryView::Choice(subtitle_description(s[i]), i == 0));
    let hv = seq![EntryView::Separator(video_heading())];
    let ha = seq![EntryView::Separator(audio_heading())];
    let hs = seq![EntryView::Separator(subtitle_heading())];
    lemma_numbers_of_choices(bv, d);
    lemma_numbers_of_choices(ba, 0);
    lemma_numbers_of_choices(bs, 0);
    lemma_empty_heading(hv, video_heading());
    lemma_empty_heading(ha, audio_heading());
    lemma_empty_heading(hs, subtitle_heading());
    lemma_numbers_concat(hv, bv);
    lemma_numbers_concat(hv + bv, ha);
    lemma_numbers_concat(hv + bv + ha, ba);
    lemma_numbers_concat(hv + bv + ha + ba, hs);
    lemma_numbers_concat(hv + bv + ha + ba + hs, bs);
    assert(menu_entries(v, a, s, d) == hv + bv + ha + ba + hs + bs);
    assert(default_numbers(menu_entries(v, a, s, d)) =~= menu_default_numbers(
        v.len() as int,
        a.len() as int,
        s.len() as int,
        d,
    ));
}

/// Accepting the defaults of a numbered menu chooses the default video stream,
/// the first audio stream and the first subtitle stream (each when there is one).
#[verifier::rlimit(30)]
pub proof fn lemma_defaults_choose_default_streams(m: StreamMenu)
    requires
        entry_views(m.entries@) == menu_entries(
            m.video@,
            m.audio@,
            m.subtitles@,
            m.default_video as int,
        ),
        choice_ranges(
            m.ranges,
            m.video@.len() as int,
            m.audio@.len() as int,
            m.subtitles@.len() as int,
            true,
        ),
        m.video@.len() + m.audio@.len() + m.subtitles@.len() + 3 <= usize::MAX,
    ensures
        pick_all(menu_start(m), m.ranges, default_numbers(entry_views(m.entries@))) matches Some(st)
            && st.streams == item_at(m.video@, m.default_video as int) + item_at(m.audio@, 0)
            && st.chosen_subtitles == item_at(m.subtitles@, 0),
{
    let v = m.video@;
    let a = m.audio@;
    let s = m.subtitles@;
    let d = m.default_video as int;
    let nv = v.len() as int;
    let na = a.len() as int;
    let ns = s.len() as int;
    lemma_menu_numbers(v, a, s, d);
    let dv: Seq<usize> = if 0 <= d < nv { seq![(d + 1) as usize] } else { seq![] };
    let da: Seq<usize> = if na > 0 { seq![(nv + 1) as usize] } else { seq![] };
    let ds: Seq<usize> = if ns > 0 { seq![(nv + na + 1) as usize] } else { seq![] };
    let nums = default_numbers(entry_views(m.entries@));
    assert(nums == dv + da + ds);
    assert(increasing(nums));
    lemma_increasing_numbers_pick_listed_streams(m, true, nums);
    reveal_with_fuel(numbered_streams, 4);
    reveal_with_fuel(numbered_subtitles, 4);
    let st = pick_all(menu_start(m), m.ranges, nums).unwrap();
    if ns > 0 {
        assert(nums.drop_last() =~= dv + da);
    }
    if na > 0 {
        assert((dv + da).drop_last() =~= dv);
    }
    assert(st.streams =~= item_at(v, d) + item_at(a, 0));
    assert(st.chosen_subtitles =~= item_at(s, 0));
}

/// With the streams sorted, accepting the defaults of the numbered menu for the
/// highest quality chooses first the video stream with the greatest pixel count
/// (and, among those, bandwidth) of all video streams; for the lowest quality,
/// the one with the least.
pub proof fn lemma_sorted_defaults_choose_extreme_video(
    s: Seq<MediaPlaylist>,
    audio_pref: Option<Seq<char>>,
    subs_pref: Option<Seq<char>>,
    pv: Seq<int>,
    pa: Seq<int>,
    ps: Seq<int>,
    quality: Quality,
    m: StreamMenu,
)
    requires
        pixels_fit(s),
        stream_orders(s, audio_pref, subs_pref, pv, pa, ps),
        of_type(s, MediaType::Video).len() > 0,
        quality == Quality::Highest || quality == Quality::Lowest,
        s.len() + 3 <= usize::MAX,
        m.video@ == of_type(arranged(s, pv, pa, ps), MediaType::Video),
        m.audio@ == of_type(arranged(s, pv, pa, ps), MediaType::Audio),
        m.subtitles@ == of_type(arranged(s, pv, pa, ps), MediaType::Subtitles),
        is_default_video(m.video@, quality, m.default_video as int),
        entry_views(m.entries@) == menu_entries(
            m.video@,
            m.audio@,
            m.subtitles@,
            m.default_video as int,
        ),
        choice_ranges(
            m.ranges,
            m.video@.len() as int,
            m.audio@.len() as int,
            m.subtitles@.len() as int,
            true,
        ),
    ensures
        pick_all(menu_start(m), m.ranges, default_numbers(entry_views(m.entries@))) matches Some(st)
            && st.streams.len() > 0 && st.streams[0].media_type == MediaType::Video && forall|
            u: MediaPlaylist,
        |
            #[trigger] s.contains(u) && u.media_type == MediaType::Video ==> if quality
                == Quality::Highest {
                quality_at_most(u, st.streams[0])
            } else {
                quality_at_most(st.streams[0], u)
            },
{
    lemma_arranged_groups(s, audio_pref, subs_pref, pv, pa, ps);
    lemma_of_type_lengths(s);
    lemma_sorted_video_extremes(s, audio_pref, subs_pref, pv, pa, ps);
    lemma_defaults_choose_default_streams(m);
    let st = pick_all(menu_start(m), m.ranges, default_numbers(entry_views(m.entries@))).unwrap();
    let d = m.default_video as int;
    assert(0 <= d < m.video@.len());
    assert(st.streams[0] == m.video@[d]);
}

/// For a quality that names a resolution, the default video stream is the
/// first stream with exactly that resolution: it has it, and no stream before
/// it does.
pub proof fn lemma_named_resolution_default_is_first(
    videos: Seq<MediaPlaylist>,
    q: Quality,
    k: int,
    w: u16,
    h: u16,
)
    requires
        quality_resolution(q) == Some((w, h)),
        is_default_video(videos, q, k),
    ensures
        0 <= k < videos.len(),
        videos[k].resolution == Some((w as u64, h as u64)),
        forall|j: int| 0 <= j < k ==> (#[trigger] videos[j]).resolution != Some((w as u64, h as u64)),
{
    assert forall|j: int| 0 <= j < k implies (#[trigger] videos[j]).resolution != Some(
        (w as u64, h as u64),
    ) by {
        assert(!stream_has_resolution(videos[j], w, h));
    }
}

/// The default video stream for the highest quality is the first stream, and
/// for the lowest quality the last.
pub proof fn lemma_extreme_quality_default_is_an_end(videos: Seq<MediaPlaylist>, k: int)
    ensures
        is_default_video(videos, Quality::Highest, k) ==> k == 0,
        is_default_video(videos, Quality::Lowest, k) ==> k == videos.len() - 1,
{
}

/// The resolutions that the named qualities stand for, as the quality names say.
pub proof fn lemma_named_quality_resolutions()
    ensures
        quality_resolution(Quality::Youtube144p) == Some((256u16, 144u16)),
        quality_resolution(Quality::Youtube240p) == Some((426u16, 240u16)),
        quality_resolution(Quality::Youtube360p) == Some((640u16, 360u16)),
        quality_resolution(Quality::Youtube480p) == Some((854u16, 480u16)),
        quality_resolution(Quality::Youtube720p) == Some((1280u16, 720u16)),
        quality_resolution(Quality::Youtube1080p) == Some((1920u16, 1080u16)),
        quality_resolution(Quality::Youtube2k) == Some((2048u16, 1080u16)),
        quality_resolution(Quality::Youtube1440p) == Some((2560u16, 1440u16)),
        quality_resolution(Quality::Youtube4k) == Some((3840u16, 2160u16)),
        quality_resolution(Quality::Youtube8k) == Some((7680u16, 4320u16)),
        forall|w: u16, h: u16| quality_resolution(Quality::Resolution(w, h)) == Some((w, h)),
        quality_resolution(Quality::Highest) is None,
        quality_resolution(Quality::Lowest) is None,
{
}

} // verus!
