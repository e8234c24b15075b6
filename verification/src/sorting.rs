//! Ordering the streams of a master playlist: best video first, then audio and
//! subtitles in the preferred languages first, then the rest.

use vstd::prelude::*;
use vstd::multiset::Multiset;
use crate::order::{
    SortKey, key_greater, lemma_stable_order_unique, permuted, ranks_before, stable_descending,
    stable_sort_descending,
};
use crate::playlist::{MasterPlaylist, MediaPlaylist, MediaType};
use crate::text::{all_ascii, ascii_lower, chars_of, lowercase, to_lowercase};

verus! {

/// The streams of `s` whose media type is `t`, in their order.
pub open spec fn of_type(s: Seq<MediaPlaylist>, t: MediaType) -> Seq<MediaPlaylist>
    decreases s.len(),
{
    if s.len() == 0 {
        seq![]
    } else if s.last().media_type == t {
        of_type(s.drop_last(), t).push(s.last())
    } else {
        of_type(s.drop_last(), t)
    }
}

/// The number of bytes that UTF-8 takes for `c`.
pub open spec fn utf8_width(c: char) -> nat {
    let u = c as u32;
    if u < 0x80 {
        1
    } else if u < 0x800 {
        2
    } else if u < 0x10000 {
        3
    } else {
        4
    }
}

/// What `s.get(0..2)` gives: the characters of the first two bytes of `s`, when
/// `s` has two bytes and the second ends a character.
pub open spec fn leading_two_bytes(s: Seq<char>) -> Option<Seq<char>> {
    if s.len() >= 1 && utf8_width(s[0]) == 2 {
        Some(s.take(1))
    } else if s.len() >= 2 && utf8_width(s[0]) == 1 && utf8_width(s[1]) == 1 {
        Some(s.take(2))
    } else {
        None
    }
}

/// How well a stream's language matches the preferred one (already in lowercase):
/// 2 for the same language in lowercase, 1 for the same first two bytes (or both
/// without them), 0 otherwise or when either is unknown.
pub open spec fn language_rank(lang: Option<String>, prefer: Option<Seq<char>>) -> u64 {
    match lang {
        Some(l) => match prefer {
            Some(p) => {
                let l2 = lowercase(l@);
                if l2 == p {
                    2
                } else if leading_two_bytes(l2) == leading_two_bytes(p) {
                    1
                } else {
                    0
                }
            },
            None => 0,
        },
        None => 0,
    }
}

/// The position of a 32-bit float, given by its bit pattern, in the IEEE 754
/// total order (the order of `f32::total_cmp`).
pub open spec fn float_order(bits: u32) -> int {
    if bits < 0x8000_0000 {
        bits as int
    } else {
        0x7FFF_FFFF - bits
    }
}

/// The order of a stream's channel count, 0.0 when unknown.
pub open spec fn channels_order(m: MediaPlaylist) -> int {
    match m.channels {
        Some(f) => float_order(f.bits),
        None => 0,
    }
}

/// A stream's bandwidth, 0 when unknown.
pub open spec fn bandwidth_or_zero(m: MediaPlaylist) -> u64 {
    match m.bandwidth {
        Some(b) => b.value,
        None => 0,
    }
}

/// A stream's pixel count, 0 when its resolution is unknown.
pub open spec fn pixels(m: MediaPlaylist) -> int {
    match m.resolution {
        Some((w, h)) => w * h,
        None => 0,
    }
}

/// Whether the pixel count of every video stream fits in `u64`.
pub open spec fn pixels_fit(s: Seq<MediaPlaylist>) -> bool {
    forall|i: int|
        0 <= i < s.len() && (#[trigger] s[i]).media_type == MediaType::Video ==> pixels(s[i])
            <= u64::MAX
}

/// The key of a video stream: pixels, then bandwidth.
pub open spec fn video_key(m: MediaPlaylist) -> SortKey {
    SortKey { major: pixels(m) as u64, middle: 0, minor: bandwidth_or_zero(m) }
}

/// The key of an audio stream: language match, then channels, then bandwidth.
pub open spec fn audio_key(m: MediaPlaylist, prefer: Option<Seq<char>>) -> SortKey {
    SortKey {
        major: language_rank(m.language, prefer),
        middle: channels_order(m) as i64,
        minor: bandwidth_or_zero(m),
    }
}

/// The key of a subtitle stream: language match.
pub open spec fn subtitle_key(m: MediaPlaylist, prefer: Option<Seq<char>>) -> SortKey {
    SortKey { major: language_rank(m.language, prefer), middle: 0, minor: 0 }
}

/// The keys of a sequence of video streams.
pub open spec fn video_keys(s: Seq<MediaPlaylist>) -> Seq<SortKey> {
    s.map_values(|m: MediaPlaylist| video_key(m))
}

/// The keys of a sequence of audio streams.
pub open spec fn audio_keys(s: Seq<MediaPlaylist>, prefer: Option<Seq<char>>) -> Seq<SortKey> {
    s.map_values(|m: MediaPlaylist| audio_key(m, prefer))
}

/// The keys of a sequence of subtitle streams.
pub open spec fn subtitle_keys(s: Seq<MediaPlaylist>, prefer: Option<Seq<char>>) -> Seq<SortKey> {
    s.map_values(|m: MediaPlaylist| subtitle_key(m, prefer))
}

/// A preferred language in lowercase. Its ASCII letters are put in lowercase
/// first, which does not change the result, so that two preferences that
/// differ only in the case of ASCII letters are visibly the same preference.
pub open spec fn preference(lang: Option<String>) -> Option<Seq<char>> {
    match lang {
        Some(l) => Some(lowercase(ascii_lower(l@))),
        None => None,
    }
}

/// Whether two optional languages are equal up to the case of ASCII letters.
pub open spec fn same_up_to_ascii_case(a: Option<String>, b: Option<String>) -> bool {
    match (a, b) {
        (None, None) => true,
        (Some(x), Some(y)) => ascii_lower(x@) == ascii_lower(y@),
        _ => false,
    }
}

/// What `language_rank` gives when the stream's language is lowercased letter
/// by ASCII letter: the same comparisons with `ascii_lower` in place of the
/// Unicode lowercase mapping.
pub open spec fn ascii_language_rank(lang: Option<String>, prefer: Option<Seq<char>>) -> u64 {
    match lang {
        Some(l) => match prefer {
            Some(p) => {
                let l2 = ascii_lower(l@);
                if l2 == p {
                    2
                } else if leading_two_bytes(l2) == leading_two_bytes(p) {
                    1
                } else {
                    0
                }
            },
            None => 0,
        },
        None => 0,
    }
}

/// The key of an audio stream, its language matched letter by ASCII letter.
pub open spec fn ascii_audio_key(m: MediaPlaylist, prefer: Option<Seq<char>>) -> SortKey {
    SortKey {
        major: ascii_language_rank(m.language, prefer),
        middle: channels_order(m) as i64,
        minor: bandwidth_or_zero(m),
    }
}

/// The key of a subtitle stream, its language matched letter by ASCII letter.
pub open spec fn ascii_subtitle_key(m: MediaPlaylist, prefer: Option<Seq<char>>) -> SortKey {
    SortKey { major: ascii_language_rank(m.language, prefer), middle: 0, minor: 0 }
}

/// The ASCII-matched keys of a sequence of audio streams.
pub open spec fn ascii_audio_keys(s: Seq<MediaPlaylist>, prefer: Option<Seq<char>>) -> Seq<SortKey> {
    s.map_values(|m: MediaPlaylist| ascii_audio_key(m, prefer))
}

/// The ASCII-matched keys of a sequence of subtitle streams.
pub open spec fn ascii_subtitle_keys(s: Seq<MediaPlaylist>, prefer: Option<Seq<char>>) -> Seq<
    SortKey,
> {
    s.map_values(|m: MediaPlaylist| ascii_subtitle_key(m, prefer))
}

/// A preferred language with its ASCII letters in lowercase.
pub open spec fn ascii_preference(lang: Option<String>) -> Option<Seq<char>> {
    match lang {
        Some(l) => Some(ascii_lower(l@)),
        None => None,
    }
}

/// Whether an optional language is ASCII text (or absent).
pub open spec fn ascii_language(lang: Option<String>) -> bool {
    match lang {
        Some(l) => all_ascii(l@),
        None => true,
    }
}

/// Whether every stream of `s` has an ASCII language or none.
pub open spec fn ascii_languages(s: Seq<MediaPlaylist>) -> bool {
    forall|i: int| 0 <= i < s.len() ==> ascii_language(#[trigger] s[i].language)
}

/// Whether `pv`, `pa` and `ps` are the stable descending orders of the streams
/// of `s` by their keys, with languages matched letter by ASCII letter.
pub open spec fn ascii_stream_orders(
    s: Seq<MediaPlaylist>,
    audio_pref: Option<Seq<char>>,
    subs_pref: Option<Seq<char>>,
    pv: Seq<int>,
    pa: Seq<int>,
    ps: Seq<int>,
) -> bool {
    &&& stable_descending(video_keys(of_type(s, MediaType::Video)), pv)
    &&& stable_descending(ascii_audio_keys(of_type(s, MediaType::Audio), audio_pref), pa)
    &&& stable_descending(ascii_subtitle_keys(of_type(s, MediaType::Subtitles), subs_pref), ps)
}

/// Whether `pv`, `pa` and `ps` are the stable descending orders of the video,
/// audio and subtitle streams of `s` by their keys.
pub open spec fn stream_orders(
    s: Seq<MediaPlaylist>,
    audio_pref: Option<Seq<char>>,
    subs_pref: Option<Seq<char>>,
    pv: Seq<int>,
    pa: Seq<int>,
    ps: Seq<int>,
) -> bool {
    &&& stable_descending(video_keys(of_type(s, MediaType::Video)), pv)
    &&& stable_descending(audio_keys(of_type(s, MediaType::Audio), audio_pref), pa)
    &&& stable_descending(subtitle_keys(of_type(s, MediaType::Subtitles), subs_pref), ps)
}

/// The streams of `s` arranged by the orders `pv`, `pa` and `ps`: video, then
/// audio, then subtitles, then the streams of undefined type as they were.
pub open spec fn arranged(s: Seq<MediaPlaylist>, pv: Seq<int>, pa: Seq<int>, ps: Seq<int>) -> Seq<
    MediaPlaylist,
> {
    permuted(of_type(s, MediaType::Video), pv) + permuted(of_type(s, MediaType::Audio), pa)
        + permuted(of_type(s, MediaType::Subtitles), ps) + of_type(s, MediaType::Undefined)
}

/// The streams of each media type together are all the streams, as multisets.
pub proof fn lemma_of_type_multisets(s: Seq<MediaPlaylist>)
    ensures
        s.to_multiset() =~= of_type(s, MediaType::Video).to_multiset().add(
            of_type(s, MediaType::Audio).to_multiset(),
        ).add(of_type(s, MediaType::Subtitles).to_multiset()).add(
            of_type(s, MediaType::Undefined).to_multiset(),
        ),
    decreases s.len(),
{
    broadcast use vstd::seq_lib::group_to_multiset_ensures;
    broadcast use vstd::multiset::group_multiset_axioms;

    if s.len() == 0 {
        assert(s.to_multiset() =~= Multiset::empty());
        assert(of_type(s, MediaType::Video).to_multiset() =~= Multiset::empty());
        assert(of_type(s, MediaType::Audio).to_multiset() =~= Multiset::empty());
        assert(of_type(s, MediaType::Subtitles).to_multiset() =~= Multiset::empty());
        assert(of_type(s, MediaType::Undefined).to_multiset() =~= Multiset::empty());
    } else {
        lemma_of_type_multisets(s.drop_last());
        assert(s =~= s.drop_last().push(s.last()));
        vstd::seq_lib::to_multiset_build(s.drop_last(), s.last());
    }
}

fn width_of(c: char) -> (w: usize)
    ensures
        w == utf8_width(c),
{
    let u = c as u32;
    if u < 0x80 {
        1
    } else if u < 0x800 {
        2
    } else if u < 0x10000 {
        3
    } else {
        4
    }
}

/// How many characters make the first two bytes of `v` (0 when they do not end a character).
fn leading_two_count(v: &Vec<char>) -> (n: usize)
    ensures
        n <= 2,
        n <= v@.len(),
        match leading_two_bytes(v@) {
            Some(p) => n > 0 && p == v@.take(n as int),
            None => n == 0,
        },
{
    if v.len() >= 1 && width_of(v[0]) == 2 {
        1
    } else if v.len() >= 2 && width_of(v[0]) == 1 && width_of(v[1]) == 1 {
        2
    } else {
        0
    }
}

fn same_leading_two_bytes(a: &str, b: &str) -> (r: bool)
    ensures
        r == (leading_two_bytes(a@) == leading_two_bytes(b@)),
{
    let va = chars_of(a);
    let vb = chars_of(b);
    let na = leading_two_count(&va);
    let nb = leading_two_count(&vb);
    if na != nb {
        proof {
            if leading_two_bytes(a@) is Some && leading_two_bytes(b@) is Some {
                assert(leading_two_bytes(a@).unwrap().len() != leading_two_bytes(b@).unwrap().len());
            }
        }
        return false;
    }
    if na == 0 {
        return true;
    }
    if na == 1 {
        let r = va[0] == vb[0];
        proof {
            if !r {
                assert(leading_two_bytes(a@).unwrap()[0] != leading_two_bytes(b@).unwrap()[0]);
            } else {
                assert(a@.take(1) =~= b@.take(1));
            }
        }
        r
    } else {
        let r = va[0] == vb[0] && va[1] == vb[1];
        proof {
            if !r {
                if va[0] != vb[0] {
                    assert(leading_two_bytes(a@).unwrap()[0] != leading_two_bytes(b@).unwrap()[0]);
                } else {
                    assert(leading_two_bytes(a@).unwrap()[1] != leading_two_bytes(b@).unwrap()[1]);
                }
            } else {
                assert(a@.take(2) =~= b@.take(2));
            }
        }
        r
    }
}

fn rank_language(lang: &Option<String>, prefer: &Option<String>) -> (r: u64)
    ensures
        r == language_rank(
            *lang,
            match prefer {
                Some(p) => Some(p@),
                None => None,
            },
        ),
        ascii_language(*lang) ==> r == ascii_language_rank(
            *lang,
            match prefer {
                Some(p) => Some(p@),
                None => None,
            },
        ),
{
    match lang {
        Some(l) => match prefer {
            Some(p) => {
                let l2 = to_lowercase(l.as_str());
                if l2 == *p {
                    2
                } else if same_leading_two_bytes(l2.as_str(), p.as_str()) {
                    1
                } else {
                    0
                }
            },
            None => 0,
        },
        None => 0,
    }
}

fn order_of_float(bits: u32) -> (r: i64)
    ensures
        r == float_order(bits),
{
    if bits < 0x8000_0000 {
        bits as i64
    } else {
        0x7FFF_FFFF - (bits as i64)
    }
}

fn lowercase_preference(lang: Option<String>) -> (r: Option<String>)
    ensures
        match r {
            Some(p) => preference(lang) == Some(p@),
            None => preference(lang) is None,
        },
        ascii_language(lang) ==> match r {
            Some(p) => ascii_preference(lang) == Some(p@),
            None => ascii_preference(lang) is None,
        },
{
    match lang {
        Some(l) => Some(to_lowercase(l.as_str())),
        None => None,
    }
}

impl MasterPlaylist {
    /// Whether the pixel count of every video stream fits in `u64`.
    pub fn pixel_counts_fit(&self) -> (b: bool)
        ensures
            b == pixels_fit(self.streams@),
    {
        let n = self.streams.len();
        for i in 0..n
            invariant
                n == self.streams@.len(),
                forall|j: int|
                    0 <= j < i && (#[trigger] self.streams@[j]).media_type == MediaType::Video
                        ==> pixels(self.streams@[j]) <= u64::MAX,
        {
            if self.streams[i].media_type == MediaType::Video {
                if let Some((w, h)) = self.streams[i].resolution {
                    if w.checked_mul(h).is_none() {
                        return false;
                    }
                }
            }
        }
        true
    }

    /// The playlist with its streams reordered: video streams by descending pixel
    /// count, then bandwidth; audio streams by descending match with the
    /// preferred audio language, then channel count, then bandwidth; subtitle
    /// streams by descending match with the preferred subtitle language; then the
    /// streams of undefined type. Streams that tie keep their relative order.
    pub fn sort_streams(self, prefer_audio_lang: Option<String>, prefer_subs_lang: Option<String>) -> (r:
        MasterPlaylist)
        requires
            pixels_fit(self.streams@),
        ensures
            r.playlist_type == self.playlist_type,
            r.uri == self.uri,
            exists|pv: Seq<int>, pa: Seq<int>, ps: Seq<int>|
                #[trigger] stream_orders(
                    self.streams@,
                    preference(prefer_audio_lang),
                    preference(prefer_subs_lang),
                    pv,
                    pa,
                    ps,
                ) && r.streams@ == arranged(self.streams@, pv, pa, ps),
            r.streams@.to_multiset() == self.streams@.to_multiset(),
            ascii_language(prefer_audio_lang) && ascii_language(prefer_subs_lang) && ascii_languages(
                self.streams@,
            ) ==> exists|pv: Seq<int>, pa: Seq<int>, ps: Seq<int>|
                #[trigger] ascii_stream_orders(
                    self.streams@,
                    ascii_preference(prefer_audio_lang),
                    ascii_preference(prefer_subs_lang),
                    pv,
                    pa,
                    ps,
                ) && r.streams@ == arranged(self.streams@, pv, pa, ps),
    {
        let ghost ap = preference(prefer_audio_lang);
        let ghost sp = preference(prefer_subs_lang);
        let ghost aap = ascii_preference(prefer_audio_lang);
        let ghost asp = ascii_preference(prefer_subs_lang);
        let ghost ascii_prefs = ascii_language(prefer_audio_lang) && ascii_language(prefer_subs_lang);
        let audio_pref = lowercase_preference(prefer_audio_lang);
        let subs_pref = lowercase_preference(prefer_subs_lang);
        let ghost s = self.streams@;
        let MasterPlaylist { playlist_type, uri, streams } = self;
        let mut video: Vec<MediaPlaylist> = Vec::new();
        let mut video_k: Vec<SortKey> = Vec::new();
        let mut audio: Vec<MediaPlaylist> = Vec::new();
        let mut audio_k: Vec<SortKey> = Vec::new();
        let mut subs: Vec<MediaPlaylist> = Vec::new();
        let mut subs_k: Vec<SortKey> = Vec::new();
        let mut undefined: Vec<MediaPlaylist> = Vec::new();
        for stream in it: streams
            invariant
                it.seq() == s,
                pixels_fit(s),
                ap == match audio_pref {
                    Some(x) => Some(x@),
                    None => None,
                },
                sp == match subs_pref {
                    Some(x) => Some(x@),
                    None => None,
                },
                video@ == of_type(s.take(it.index() as int), MediaType::Video),
                audio@ == of_type(s.take(it.index() as int), MediaType::Audio),
                subs@ == of_type(s.take(it.index() as int), MediaType::Subtitles),
                undefined@ == of_type(s.take(it.index() as int), MediaType::Undefined),
                video_k@ == video_keys(video@),
                audio_k@ == audio_keys(audio@, ap),
                subs_k@ == subtitle_keys(subs@, sp),
                ascii_languages(s.take(it.index() as int)) ==> audio_k@ == ascii_audio_keys(
                    audio@,
                    ap,
                ) && subs_k@ == ascii_subtitle_keys(subs@, sp),
        {
            let ghost i = it.index() as int;
            assert(s.take(i + 1).drop_last() =~= s.take(i));
            assert(s.take(i + 1).last() == stream);
            assert(s[i] == stream);
            proof {
                if ascii_languages(s.take(i + 1)) {
                    assert forall|j: int| 0 <= j < s.take(i).len() implies ascii_language(
                        #[trigger] s.take(i)[j].language,
                    ) by {
                        assert(s.take(i)[j] == s.take(i + 1)[j]);
                    }
                    assert(ascii_language(s.take(i + 1)[i].language));
                }
            }
            match stream.media_type {
                MediaType::Audio => {
                    let rank = rank_language(&stream.language, &audio_pref);
                    let channels = match &stream.channels {
                        Some(c) => order_of_float(c.bits),
                        None => 0,
                    };
                    let bandwidth = match &stream.bandwidth {
                        Some(b) => b.value,
                        None => 0,
                    };
                    let key = SortKey { major: rank, middle: channels, minor: bandwidth };
                    assert(key == audio_key(stream, ap));
                    audio_k.push(key);
                    audio.push(stream);
                    assert(audio_k@ =~= audio_keys(audio@, ap));
                    proof {
                        if ascii_languages(s.take(i + 1)) {
                            assert(key == ascii_audio_key(stream, ap));
                            assert(audio_k@ =~= ascii_audio_keys(audio@, ap));
                        }
                    }
                },
                MediaType::Subtitles => {
                    let rank = rank_language(&stream.language, &subs_pref);
                    let key = SortKey { major: rank, middle: 0, minor: 0 };
                    subs_k.push(key);
                    subs.push(stream);
                    assert(subs_k@ =~= subtitle_keys(subs@, sp));
                    proof {
                        if ascii_languages(s.take(i + 1)) {
                            assert(subs_k@ =~= ascii_subtitle_keys(subs@, sp));
                        }
                    }
                },
                MediaType::Undefined => {
                    undefined.push(stream);
                },
                MediaType::Video => {
                    let pixels = match stream.resolution {
                        Some((w, h)) => w * h,
                        None => 0,
                    };
                    let bandwidth = match &stream.bandwidth {
                        Some(b) => b.value,
                        None => 0,
                    };
                    let key = SortKey { major: pixels, middle: 0, minor: bandwidth };
                    video_k.push(key);
                    video.push(stream);
                    assert(video_k@ =~= video_keys(video@));
                },
            }
        }
        assert(s.take(s.len() as int) =~= s);
        let (mut sorted, Ghost(pv)) = stable_sort_descending(video, &video_k);
        let (mut sorted_audio, Ghost(pa)) = stable_sort_descending(audio, &audio_k);
        let (mut sorted_subs, Ghost(ps)) = stable_sort_descending(subs, &subs_k);
        let ghost (sv, sa, ss, su) = (sorted@, sorted_audio@, sorted_subs@, undefined@);
        sorted.append(&mut sorted_audio);
        sorted.append(&mut sorted_subs);
        sorted.append(&mut undefined);
        assert(stream_orders(s, ap, sp, pv, pa, ps));
        assert(sorted@ =~= arranged(s, pv, pa, ps));
        proof {
            if ascii_prefs && ascii_languages(s) {
                assert(ap == aap && sp == asp);
                assert(ascii_stream_orders(s, aap, asp, pv, pa, ps));
            }
        }
        proof {
            lemma_of_type_multisets(s);
            vstd::seq_lib::lemma_multiset_commutative(sv, sa);
            vstd::seq_lib::lemma_multiset_commutative(sv + sa, ss);
            vstd::seq_lib::lemma_multiset_commutative(sv + sa + ss, su);
            assert(sorted@ == sv + sa + ss + su);
        }
        MasterPlaylist { playlist_type, uri, streams: sorted }
    }
}

/// Matching languages ignores the case of ASCII letters: a stream language and
/// a preferred language that are ASCII rank as their ASCII-lowercased forms do,
/// and the same language written in other cases ranks highest.
pub proof fn lemma_language_match_ignores_ascii_case(l1: String, l2: String, p1: String, p2: String)
    requires
        all_ascii(l1@),
        all_ascii(l2@),
        all_ascii(p1@),
        all_ascii(p2@),
        ascii_lower(l1@) == ascii_lower(l2@),
        ascii_lower(p1@) == ascii_lower(p2@),
    ensures
        ascii_language_rank(Some(l1), ascii_preference(Some(p1))) == ascii_language_rank(
            Some(l2),
            ascii_preference(Some(p2)),
        ),
        ascii_lower(l1@) == ascii_lower(p1@) ==> ascii_language_rank(
            Some(l1),
            ascii_preference(Some(p1)),
        ) == 2,
{
}

/// Language preferences that differ only in the case of ASCII letters (such as
/// `EN` and `en`) order the streams alike: the sorts they admit give the same
/// streams in the same order.
pub proof fn lemma_preference_case_is_ignored(
    s: Seq<MediaPlaylist>,
    audio1: Option<String>,
    subs1: Option<String>,
    audio2: Option<String>,
    subs2: Option<String>,
    pv: Seq<int>,
    pa: Seq<int>,
    ps: Seq<int>,
    qv: Seq<int>,
    qa: Seq<int>,
    qs: Seq<int>,
)
    requires
        same_up_to_ascii_case(audio1, audio2),
        same_up_to_ascii_case(subs1, subs2),
        stream_orders(s, preference(audio1), preference(subs1), pv, pa, ps),
        stream_orders(s, preference(audio2), preference(subs2), qv, qa, qs),
    ensures
        arranged(s, pv, pa, ps) == arranged(s, qv, qa, qs),
{
    assert(preference(audio1) == preference(audio2));
    assert(preference(subs1) == preference(subs2));
    lemma_stable_order_unique(video_keys(of_type(s, MediaType::Video)), pv, qv);
    lemma_stable_order_unique(
        audio_keys(of_type(s, MediaType::Audio), preference(audio1)),
        pa,
        qa,
    );
    lemma_stable_order_unique(
        subtitle_keys(of_type(s, MediaType::Subtitles), preference(subs1)),
        ps,
        qs,
    );
}

/// Every stream of `of_type(s, t)` is a stream of `s` of type `t`.
pub proof fn lemma_of_type_members(s: Seq<MediaPlaylist>, t: MediaType)
    ensures
        forall|k: int|
            0 <= k < of_type(s, t).len() ==> (#[trigger] of_type(s, t)[k]).media_type == t
                && s.contains(of_type(s, t)[k]),
    decreases s.len(),
{
    if s.len() > 0 {
        lemma_of_type_members(s.drop_last(), t);
        let prev = of_type(s.drop_last(), t);
        assert forall|k: int| 0 <= k < of_type(s, t).len() implies (#[trigger] of_type(
            s,
            t,
        )[k]).media_type == t && s.contains(of_type(s, t)[k]) by {
            if k < prev.len() {
                assert(of_type(s, t)[k] == prev[k]);
                let j = choose|j: int| 0 <= j < s.drop_last().len() && s.drop_last()[j] == prev[k];
                assert(s[j] == prev[k]);
            } else {
                assert(of_type(s, t)[k] == s.last());
                assert(s[s.len() - 1] == s.last());
            }
        }
    }
}

/// After sorting, the video streams come first, from the highest pixel count
/// down, followed by the audio streams, from the best match with the preferred
/// audio language down.
pub proof fn lemma_sorted_streams_best_first(
    s: Seq<MediaPlaylist>,
    audio_pref: Option<Seq<char>>,
    subs_pref: Option<Seq<char>>,
    pv: Seq<int>,
    pa: Seq<int>,
    ps: Seq<int>,
)
    requires
        pixels_fit(s),
        stream_orders(s, audio_pref, subs_pref, pv, pa, ps),
    ensures
        ({
            let out = arranged(s, pv, pa, ps);
            let nv = of_type(s, MediaType::Video).len() as int;
            let na = of_type(s, MediaType::Audio).len() as int;
            &&& forall|k: int| 0 <= k < nv ==> (#[trigger] out[k]).media_type == MediaType::Video
            &&& forall|k: int|
                nv <= k < nv + na ==> (#[trigger] out[k]).media_type == MediaType::Audio
            &&& forall|a: int, b: int|
                0 <= a < b < nv ==> pixels(#[trigger] out[a]) >= pixels(#[trigger] out[b])
            &&& forall|a: int, b: int|
                nv <= a < b < nv + na ==> language_rank(#[trigger] out[a].language, audio_pref)
                    >= language_rank(#[trigger] out[b].language, audio_pref)
        }),
{
    let out = arranged(s, pv, pa, ps);
    let vs = of_type(s, MediaType::Video);
    let au = of_type(s, MediaType::Audio);
    let nv = vs.len() as int;
    let na = au.len() as int;
    lemma_of_type_members(s, MediaType::Video);
    lemma_of_type_members(s, MediaType::Audio);
    let pvs = permuted(vs, pv);
    let pas = permuted(au, pa);
    assert forall|k: int| 0 <= k < nv implies #[trigger] out[k] == pvs[k] && pvs[k] == vs[pv[k]] by {
    }
    assert forall|k: int| nv <= k < nv + na implies #[trigger] out[k] == pas[k - nv] && pas[k - nv]
        == au[pa[k - nv]] by {
    }
    assert forall|k: int| 0 <= k < nv implies pixels(#[trigger] vs[k]) <= u64::MAX by {
        let j = choose|j: int| 0 <= j < s.len() && s[j] == vs[k];
        assert(s[j].media_type == MediaType::Video);
    }
    assert forall|a: int, b: int| 0 <= a < b < nv implies pixels(#[trigger] out[a]) >= pixels(
        #[trigger] out[b],
    ) by {
        assert(ranks_before(video_keys(vs), pv[a], pv[b]));
        assert(pixels(vs[pv[a]]) <= u64::MAX);
        assert(pixels(vs[pv[b]]) <= u64::MAX);
    }
    assert forall|a: int, b: int| nv <= a < b < nv + na implies language_rank(
        #[trigger] out[a].language,
        audio_pref,
    ) >= language_rank(#[trigger] out[b].language, audio_pref) by {
        assert(ranks_before(audio_keys(au, audio_pref), pa[a - nv], pa[b - nv]));
    }
}

/// The bit pattern of a stream's channel count, that of 0.0 when unknown.
pub open spec fn channel_bits(m: MediaPlaylist) -> u32 {
    match m.channels {
        Some(f) => f.bits,
        None => 0,
    }
}

/// Whether the `f32` with bit pattern `x` is at least the one with pattern `y`
/// in the total order of `f32::total_cmp`: values with the sign bit set come
/// below those without; without it a greater pattern is a greater value, with
/// it a smaller pattern is.
pub open spec fn f32_total_at_least(x: u32, y: u32) -> bool {
    let x_neg = x >= 0x8000_0000;
    let y_neg = y >= 0x8000_0000;
    if !x_neg && y_neg {
        true
    } else if x_neg && !y_neg {
        false
    } else if !x_neg {
        x >= y
    } else {
        x <= y
    }
}

/// After sorting, among the audio streams that match the preferred language
/// equally well, those with more channels (by `f32::total_cmp`, an unknown count
/// taken as 0.0) come first.
pub proof fn lemma_sorted_audio_more_channels_first(
    s: Seq<MediaPlaylist>,
    audio_pref: Option<Seq<char>>,
    subs_pref: Option<Seq<char>>,
    pv: Seq<int>,
    pa: Seq<int>,
    ps: Seq<int>,
)
    requires
        stream_orders(s, audio_pref, subs_pref, pv, pa, ps),
    ensures
        ({
            let out = arranged(s, pv, pa, ps);
            let nv = of_type(s, MediaType::Video).len() as int;
            let na = of_type(s, MediaType::Audio).len() as int;
            forall|a: int, b: int|
                nv <= a < b < nv + na && language_rank(#[trigger] out[a].language, audio_pref)
                    == language_rank(#[trigger] out[b].language, audio_pref) ==> f32_total_at_least(
                    channel_bits(out[a]),
                    channel_bits(out[b]),
                )
        }),
{
    let out = arranged(s, pv, pa, ps);
    let vs = of_type(s, MediaType::Video);
    let au = of_type(s, MediaType::Audio);
    let nv = vs.len() as int;
    let na = au.len() as int;
    let pas = permuted(au, pa);
    let keys = audio_keys(au, audio_pref);
    assert forall|k: int| nv <= k < nv + na implies #[trigger] out[k] == pas[k - nv] && pas[k - nv]
        == au[pa[k - nv]] by {
    }
    assert forall|a: int, b: int|
        nv <= a < b < nv + na && language_rank(#[trigger] out[a].language, audio_pref)
            == language_rank(#[trigger] out[b].language, audio_pref) implies f32_total_at_least(
        channel_bits(out[a]),
        channel_bits(out[b]),
    ) by {
        let x = au[pa[a - nv]];
        let y = au[pa[b - nv]];
        assert(ranks_before(keys, pa[a - nv], pa[b - nv]));
        assert(keys[pa[a - nv]] == audio_key(x, audio_pref));
        assert(keys[pa[b - nv]] == audio_key(y, audio_pref));
        let cx = channel_bits(x);
        let cy = channel_bits(y);
        assert(channels_order(x) == float_order(cx));
        assert(channels_order(y) == float_order(cy));
        assert(-0x8000_0000 <= float_order(cx) <= 0x7FFF_FFFF);
        assert(-0x8000_0000 <= float_order(cy) <= 0x7FFF_FFFF);
        assert(float_order(cx) >= float_order(cy));
    }
}

proof fn lemma_of_type_concat(x: Seq<MediaPlaylist>, y: Seq<MediaPlaylist>, t: MediaType)
    ensures
        of_type(x + y, t) == of_type(x, t) + of_type(y, t),
    decreases y.len(),
{
    if y.len() == 0 {
        assert(x + y =~= x);
        assert(of_type(x, t) + of_type(y, t) =~= of_type(x, t));
    } else {
        lemma_of_type_concat(x, y.drop_last(), t);
        assert((x + y).drop_last() =~= x + y.drop_last());
        assert((x + y).last() == y.last());
        assert(of_type(x, t) + of_type(y, t) =~= if y.last().media_type == t {
            (of_type(x, t) + of_type(y.drop_last(), t)).push(y.last())
        } else {
            of_type(x, t) + of_type(y.drop_last(), t)
        });
    }
}

proof fn lemma_of_type_uniform(x: Seq<MediaPlaylist>, t: MediaType, u: MediaType)
    requires
        forall|k: int| 0 <= k < x.len() ==> (#[trigger] x[k]).media_type == u,
    ensures
        of_type(x, t) == if t == u { x } else { seq![] },
    decreases x.len(),
{
    if x.len() > 0 {
        lemma_of_type_uniform(x.drop_last(), t, u);
        assert(x.last() == x[x.len() - 1]);
        if t == u {
            assert(x.drop_last().push(x.last()) =~= x);
        }
    }
}

proof fn lemma_identity_order(keys: Seq<SortKey>, base: Seq<SortKey>, p: Seq<int>)
    requires
        stable_descending(base, p),
        keys == permuted(base, p),
    ensures
        stable_descending(keys, Seq::new(keys.len(), |i: int| i)),
{
    let id = Seq::new(keys.len(), |i: int| i);
    assert forall|a: int, b: int| 0 <= a < b < id.len() implies ranks_before(
        keys,
        #[trigger] id[a],
        #[trigger] id[b],
    ) by {
        assert(ranks_before(base, p[a], p[b]));
    }
}

proof fn lemma_sorted_group_is_stable(
    group: Seq<MediaPlaylist>,
    keys_of: spec_fn(Seq<MediaPlaylist>) -> Seq<SortKey>,
    p: Seq<int>,
    q: Seq<int>,
)
    requires
        forall|x: Seq<MediaPlaylist>| #[trigger] keys_of(x).len() == x.len(),
        forall|x: Seq<MediaPlaylist>, k: int|
            0 <= k < x.len() ==> #[trigger] keys_of(x)[k] == keys_of(seq![x[k]])[0],
        stable_descending(keys_of(group), p),
        stable_descending(keys_of(permuted(group, p)), q),
    ensures
        permuted(permuted(group, p), q) == permuted(group, p),
{
    let sorted = permuted(group, p);
    let keys = keys_of(sorted);
    assert(keys =~= permuted(keys_of(group), p)) by {
        assert forall|k: int| 0 <= k < keys.len() implies keys[k] == permuted(keys_of(group), p)[k] by {
            assert(keys[k] == keys_of(seq![sorted[k]])[0]);
            assert(keys_of(group)[p[k]] == keys_of(seq![group[p[k]]])[0]);
        }
    }
    lemma_identity_order(keys, keys_of(group), p);
    crate::order::lemma_stable_order_unique(keys, q, Seq::new(keys.len(), |i: int| i));
    assert(permuted(sorted, q) =~= sorted);
}

/// The streams of each media type after sorting are that type's streams of the
/// input, in their sorted order; the streams of undefined type are unchanged.
pub proof fn lemma_arranged_groups(
    s: Seq<MediaPlaylist>,
    audio_pref: Option<Seq<char>>,
    subs_pref: Option<Seq<char>>,
    pv: Seq<int>,
    pa: Seq<int>,
    ps: Seq<int>,
)
    requires
        stream_orders(s, audio_pref, subs_pref, pv, pa, ps),
    ensures
        of_type(arranged(s, pv, pa, ps), MediaType::Video) == permuted(of_type(s, MediaType::Video), pv),
        of_type(arranged(s, pv, pa, ps), MediaType::Audio) == permuted(of_type(s, MediaType::Audio), pa),
        of_type(arranged(s, pv, pa, ps), MediaType::Subtitles) == permuted(
            of_type(s, MediaType::Subtitles),
            ps,
        ),
        of_type(arranged(s, pv, pa, ps), MediaType::Undefined) == of_type(s, MediaType::Undefined),
{
    let t = arranged(s, pv, pa, ps);
    let v = permuted(of_type(s, MediaType::Video), pv);
    let a = permuted(of_type(s, MediaType::Audio), pa);
    let b = permuted(of_type(s, MediaType::Subtitles), ps);
    let u = of_type(s, MediaType::Undefined);
    lemma_of_type_members(s, MediaType::Video);
    lemma_of_type_members(s, MediaType::Audio);
    lemma_of_type_members(s, MediaType::Subtitles);
    lemma_of_type_members(s, MediaType::Undefined);
    assert forall|k: int| 0 <= k < v.len() implies (#[trigger] v[k]).media_type == MediaType::Video by {
        assert(v[k] == of_type(s, MediaType::Video)[pv[k]]);
    }
    assert forall|k: int| 0 <= k < a.len() implies (#[trigger] a[k]).media_type == MediaType::Audio by {
        assert(a[k] == of_type(s, MediaType::Audio)[pa[k]]);
    }
    assert forall|k: int| 0 <= k < b.len() implies (#[trigger] b[k]).media_type == MediaType::Subtitles by {
        assert(b[k] == of_type(s, MediaType::Subtitles)[ps[k]]);
    }
    assert forall|k: int| 0 <= k < u.len() implies (#[trigger] u[k]).media_type == MediaType::Undefined by {
    }
    assert forall|kind: MediaType| of_type(t, kind) == of_type(v, kind) + of_type(a, kind) + of_type(
        b,
        kind,
    ) + of_type(u, kind) by {
        lemma_of_type_concat(v + a + b, u, kind);
        lemma_of_type_concat(v + a, b, kind);
        lemma_of_type_concat(v, a, kind);
    }
    lemma_of_type_uniform(v, MediaType::Video, MediaType::Video);
    lemma_of_type_uniform(a, MediaType::Video, MediaType::Audio);
    lemma_of_type_uniform(b, MediaType::Video, MediaType::Subtitles);
    lemma_of_type_uniform(u, MediaType::Video, MediaType::Undefined);
    lemma_of_type_uniform(v, MediaType::Audio, MediaType::Video);
    lemma_of_type_uniform(a, MediaType::Audio, MediaType::Audio);
    lemma_of_type_uniform(b, MediaType::Audio, MediaType::Subtitles);
    lemma_of_type_uniform(u, MediaType::Audio, MediaType::Undefined);
    lemma_of_type_uniform(v, MediaType::Subtitles, MediaType::Video);
    lemma_of_type_uniform(a, MediaType::Subtitles, MediaType::Audio);
    lemma_of_type_uniform(b, MediaType::Subtitles, MediaType::Subtitles);
    lemma_of_type_uniform(u, MediaType::Subtitles, MediaType::Undefined);
    lemma_of_type_uniform(v, MediaType::Undefined, MediaType::Video);
    lemma_of_type_uniform(a, MediaType::Undefined, MediaType::Audio);
    lemma_of_type_uniform(b, MediaType::Undefined, MediaType::Subtitles);
    lemma_of_type_uniform(u, MediaType::Undefined, MediaType::Undefined);
    assert(of_type(t, MediaType::Video) =~= v);
    assert(of_type(t, MediaType::Audio) =~= a);
    assert(of_type(t, MediaType::Subtitles) =~= b);
    assert(of_type(t, MediaType::Undefined) =~= u);
}

/// Sorting is idempotent: sorting streams that are already sorted (with the
/// same language preferences) leaves their order unchanged.
pub proof fn lemma_sorting_twice_changes_nothing(
    s: Seq<MediaPlaylist>,
    audio_pref: Option<Seq<char>>,
    subs_pref: Option<Seq<char>>,
    pv: Seq<int>,
    pa: Seq<int>,
    ps: Seq<int>,
    qv: Seq<int>,
    qa: Seq<int>,
    qs: Seq<int>,
)
    requires
        stream_orders(s, audio_pref, subs_pref, pv, pa, ps),
        stream_orders(arranged(s, pv, pa, ps), audio_pref, subs_pref, qv, qa, qs),
    ensures
        arranged(arranged(s, pv, pa, ps), qv, qa, qs) == arranged(s, pv, pa, ps),
{
    lemma_arranged_groups(s, audio_pref, subs_pref, pv, pa, ps);
    let vk = |x: Seq<MediaPlaylist>| video_keys(x);
    let ak = |x: Seq<MediaPlaylist>| audio_keys(x, audio_pref);
    let sk = |x: Seq<MediaPlaylist>| subtitle_keys(x, subs_pref);
    lemma_sorted_group_is_stable(of_type(s, MediaType::Video), vk, pv, qv);
    lemma_sorted_group_is_stable(of_type(s, MediaType::Audio), ak, pa, qa);
    lemma_sorted_group_is_stable(of_type(s, MediaType::Subtitles), sk, ps, qs);
}

/// Whether stream `x` is at most stream `y` by pixel count, then bandwidth.
pub open spec fn quality_at_most(x: MediaPlaylist, y: MediaPlaylist) -> bool {
    pixels(x) < pixels(y) || (pixels(x) == pixels(y) && bandwidth_or_zero(x) <= bandwidth_or_zero(y))
}

proof fn lemma_of_type_complete(s: Seq<MediaPlaylist>, t: MediaType, u: MediaPlaylist)
    requires
        s.contains(u),
        u.media_type == t,
    ensures
        of_type(s, t).contains(u),
    decreases s.len(),
{
    if s.last() == u {
        assert(of_type(s, t).last() == u);
        assert(of_type(s, t)[of_type(s, t).len() - 1] == u);
    } else {
        let j = choose|j: int| 0 <= j < s.len() && s[j] == u;
        assert(j != s.len() - 1);
        assert(s.drop_last()[j] == u);
        lemma_of_type_complete(s.drop_last(), t, u);
        let prev = of_type(s.drop_last(), t);
        let k = choose|k: int| 0 <= k < prev.len() && prev[k] == u;
        assert(of_type(s, t)[k] == u);
    }
}

proof fn lemma_key_order_is_quality_order(x: MediaPlaylist, y: MediaPlaylist)
    requires
        pixels(x) <= u64::MAX,
        pixels(y) <= u64::MAX,
        pixels(x) >= 0,
        pixels(y) >= 0,
        key_greater(video_key(x), video_key(y)) || video_key(x) == video_key(y),
    ensures
        quality_at_most(y, x),
{
}

proof fn lemma_pixels_nonnegative(m: MediaPlaylist)
    ensures
        pixels(m) >= 0,
{
    match m.resolution {
        Some((w, h)) => {
            assert(w * h >= 0) by (nonlinear_arith)
                requires
                    w >= 0,
                    h >= 0,
            ;
        },
        None => {},
    }
}

/// After sorting, the first video stream has the greatest pixel count and,
/// among those, the greatest bandwidth of all video streams; the last video
/// stream has the least.
pub proof fn lemma_sorted_video_extremes(
    s: Seq<MediaPlaylist>,
    audio_pref: Option<Seq<char>>,
    subs_pref: Option<Seq<char>>,
    pv: Seq<int>,
    pa: Seq<int>,
    ps: Seq<int>,
)
    requires
        pixels_fit(s),
        stream_orders(s, audio_pref, subs_pref, pv, pa, ps),
        of_type(s, MediaType::Video).len() > 0,
    ensures
        ({
            let vids = of_type(arranged(s, pv, pa, ps), MediaType::Video);
            &&& vids.len() == of_type(s, MediaType::Video).len()
            &&& vids[0].media_type == MediaType::Video
            &&& vids[vids.len() - 1].media_type == MediaType::Video
            &&& forall|u: MediaPlaylist|
                #[trigger] s.contains(u) && u.media_type == MediaType::Video ==> quality_at_most(
                    u,
                    vids[0],
                ) && quality_at_most(vids[vids.len() - 1], u)
        }),
{
    lemma_arranged_groups(s, audio_pref, subs_pref, pv, pa, ps);
    lemma_of_type_members(s, MediaType::Video);
    let v = of_type(s, MediaType::Video);
    let vids = permuted(v, pv);
    let n = v.len();
    let keys = video_keys(v);
    assert forall|i: int| 0 <= i < n implies pixels(#[trigger] v[i]) <= u64::MAX && pixels(v[i])
        >= 0 by {
        let j = choose|j: int| 0 <= j < s.len() && s[j] == v[i];
        assert(s[j].media_type == MediaType::Video);
        lemma_pixels_nonnegative(v[i]);
    }
    assert(vids[0] == v[pv[0]]);
    assert(vids[n - 1] == v[pv[n - 1]]);
    assert forall|u: MediaPlaylist|
        #[trigger] s.contains(u) && u.media_type == MediaType::Video implies quality_at_most(
        u,
        vids[0],
    ) && quality_at_most(vids[n - 1], u) by {
        lemma_of_type_complete(s, MediaType::Video, u);
        let j = choose|j: int| 0 <= j < n && v[j] == u;
        crate::order::lemma_permutation_onto(pv, n, j);
        let b = choose|b: int| 0 <= b < n && pv[b] == j;
        if b > 0 {
            assert(ranks_before(keys, pv[0], pv[b]));
            lemma_key_order_is_quality_order(v[pv[0]], v[pv[b]]);
        }
        if b < n - 1 {
            assert(ranks_before(keys, pv[b], pv[n - 1]));
            lemma_key_order_is_quality_order(v[pv[b]], v[pv[n - 1]]);
        }
    }
}

} // verus!
