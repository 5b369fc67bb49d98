//! Displays: their names, modes and which one is primary.
//!
//! The platforms hand out refresh rates as decimal fractions; the readings keep
//! the text of the rate as the platform wrote it, and the caller turns it into the
//! whole number of Hz that the report prints.
use vstd::prelude::*;
use crate::models::opt_view;
use crate::text::{
    after_char, after_char_exec, contains, contains_str, ends_with, ends_with_chars, eq_str,
    from_chars, is_digit, lines, lines_exec, parse_u32, parse_u32_chars, split, split_exec,
    starts_with, starts_with_chars, to_chars, trim, trim_chars, trim_end_char,
    trim_end_char_exec, views, words, words_exec,
};

verus! {

/// A display as a platform listing describes it.
pub struct DisplayReading {
    pub name: Option<String>,
    pub resolution_w: u32,
    pub resolution_h: u32,
    /// The refresh rate as the listing writes it (such as "59.95").
    pub refresh_text: Option<String>,
    pub is_primary: bool,
}

pub struct DisplayReadingView {
    pub name: Option<Seq<char>>,
    pub resolution_w: u32,
    pub resolution_h: u32,
    pub refresh_text: Option<Seq<char>>,
    pub is_primary: bool,
}

impl View for DisplayReading {
    type V = DisplayReadingView;

    open spec fn view(&self) -> DisplayReadingView {
        DisplayReadingView {
            name: opt_view(self.name),
            resolution_w: self.resolution_w,
            resolution_h: self.resolution_h,
            refresh_text: opt_view(self.refresh_text),
            is_primary: self.is_primary,
        }
    }
}

pub open spec fn reading_views(s: Seq<DisplayReading>) -> Seq<DisplayReadingView> {
    s.map_values(|d: DisplayReading| d@)
}

pub open spec fn u32_or_zero(o: Option<u32>) -> u32 {
    match o {
        Some(v) => v,
        None => 0,
    }
}

/// The display that a `primary|name|width|height|frequency` line describes, if the
/// line has all five fields.
pub open spec fn windows_reading(line: Seq<char>) -> Option<DisplayReadingView> {
    let parts = split(trim(line), '|');
    if parts.len() < 5 {
        None
    } else {
        let name = trim(parts[1]);
        Some(
            DisplayReadingView {
                name: if name.len() == 0 {
                    None
                } else {
                    Some(name)
                },
                resolution_w: u32_or_zero(parse_u32(parts[2])),
                resolution_h: u32_or_zero(parse_u32(parts[3])),
                refresh_text: Some(parts[4]),
                is_primary: parts[0] == "1"@,
            },
        )
    }
}

/// The displays of the Windows display listing: one per line of five `|`-separated fields.
pub open spec fn windows_readings(ls: Seq<Seq<char>>) -> Seq<DisplayReadingView>
    decreases ls.len(),
{
    if ls.len() == 0 {
        seq![]
    } else {
        windows_readings(ls.drop_last()) + match windows_reading(ls.last()) {
            Some(d) => seq![d],
            None => seq![],
        }
    }
}

/// A word without the trailing characters that are neither ASCII digits nor '.'.
pub open spec fn trim_rate(s: Seq<char>) -> Seq<char>
    decreases s.len(),
{
    if s.len() > 0 && !is_digit(s.last()) && s.last() != '.' {
        trim_rate(s.drop_last())
    } else {
        s
    }
}

/// The first word at or after position `i` that holds '*', if any.
pub open spec fn starred_from(parts: Seq<Seq<char>>, i: int) -> Option<Seq<char>>
    decreases parts.len() - i,
{
    if i >= parts.len() {
        None
    } else if contains(parts[i], "*"@) {
        Some(parts[i])
    } else {
        starred_from(parts, i + 1)
    }
}

/// A display of the xrandr listing, updated by one of its current-mode lines.
pub open spec fn xrandr_mode(d: DisplayReadingView, line: Seq<char>) -> DisplayReadingView {
    let parts = words(line);
    if parts.len() == 0 {
        d
    } else {
        let dims = split(parts[0], 'x');
        let d1 = if dims.len() == 2 {
            DisplayReadingView {
                resolution_w: u32_or_zero(parse_u32(dims[0])),
                resolution_h: u32_or_zero(parse_u32(dims[1])),
                ..d
            }
        } else {
            d
        };
        match starred_from(parts, 1) {
            Some(p) => DisplayReadingView { refresh_text: Some(trim_rate(p)), ..d1 },
            None => d1,
        }
    }
}

pub open spec fn first_word(line: Seq<char>) -> Seq<char> {
    let w = words(line);
    if w.len() > 0 {
        w[0]
    } else {
        seq![]
    }
}

/// The displays found so far and whether none has been found yet.
pub struct XrandrState {
    pub displays: Seq<DisplayReadingView>,
    pub first: bool,
}

pub open spec fn xrandr_step(st: XrandrState, line: Seq<char>) -> XrandrState {
    if contains(line, " connected"@) {
        XrandrState {
            displays: st.displays.push(
                DisplayReadingView {
                    name: Some(first_word(line)),
                    resolution_w: 0,
                    resolution_h: 0,
                    refresh_text: None,
                    is_primary: contains(line, " primary "@) && st.first,
                },
            ),
            first: false,
        }
    } else if starts_with(line, "   "@) && contains(line, "*"@) && st.displays.len() > 0 {
        XrandrState {
            displays: st.displays.update(
                st.displays.len() - 1,
                xrandr_mode(st.displays.last(), line),
            ),
            first: st.first,
        }
    } else {
        st
    }
}

pub open spec fn xrandr_fold(ls: Seq<Seq<char>>) -> XrandrState
    decreases ls.len(),
{
    if ls.len() == 0 {
        XrandrState { displays: seq![], first: true }
    } else {
        xrandr_step(xrandr_fold(ls.drop_last()), ls.last())
    }
}

/// The numbers that the `x`-separated fields of a resolution write, such as the
/// 2560 and 1440 of " 2560 x 1440 Retina", each read from its first word.
pub open spec fn resolution_numbers(fields: Seq<Seq<char>>) -> Seq<u32>
    decreases fields.len(),
{
    if fields.len() == 0 {
        seq![]
    } else {
        resolution_numbers(fields.drop_last()) + {
            let w = words(trim(fields.last()));
            if w.len() > 0 {
                match parse_u32(w[0]) {
                    Some(v) => seq![v],
                    None => seq![],
                }
            } else {
                seq![]
            }
        }
    }
}

/// A display of the system_profiler listing, updated by one of its (trimmed) lines.
pub open spec fn profiler_update(d: DisplayReadingView, t: Seq<char>) -> DisplayReadingView {
    if starts_with(t, "Resolution:"@) {
        match after_char(t, ':') {
            Some(val) => {
                let nums = resolution_numbers(split(val, 'x'));
                if nums.len() >= 2 {
                    DisplayReadingView { resolution_w: nums[0], resolution_h: nums[1], ..d }
                } else {
                    d
                }
            },
            None => d,
        }
    } else if starts_with(t, "Refresh Rate:"@) {
        match after_char(t, ':') {
            Some(val) => {
                let w = words(trim(val));
                DisplayReadingView {
                    refresh_text: if w.len() > 0 {
                        Some(w[0])
                    } else {
                        None
                    },
                    ..d
                }
            },
            None => d,
        }
    } else {
        d
    }
}

/// The displays found so far and the one being read.
pub struct ProfilerState {
    pub displays: Seq<DisplayReadingView>,
    pub current: Option<DisplayReadingView>,
}

pub open spec fn profiler_step(st: ProfilerState, line: Seq<char>) -> ProfilerState {
    let t = trim(line);
    if ends_with(t, ":"@) && starts_with(line, "        "@) {
        let displays = match st.current {
            Some(d) => st.displays.push(d),
            None => st.displays,
        };
        ProfilerState {
            displays,
            current: Some(
                DisplayReadingView {
                    name: Some(trim_end_char(t, ':')),
                    resolution_w: 0,
                    resolution_h: 0,
                    refresh_text: None,
                    is_primary: displays.len() == 0,
                },
            ),
        }
    } else {
        match st.current {
            Some(d) => ProfilerState { displays: st.displays, current: Some(profiler_update(d, t)) },
            None => st,
        }
    }
}

pub open spec fn profiler_fold(ls: Seq<Seq<char>>) -> ProfilerState
    decreases ls.len(),
{
    if ls.len() == 0 {
        ProfilerState { displays: seq![], current: None }
    } else {
        profiler_step(profiler_fold(ls.drop_last()), ls.last())
    }
}

pub open spec fn profiler_readings(text: Seq<char>) -> Seq<DisplayReadingView> {
    let st = profiler_fold(lines(text));
    match st.current {
        Some(d) => st.displays.push(d),
        None => st.displays,
    }
}


fn u32_or_zero_exec(o: Option<u32>) -> (r: u32)
    ensures
        r == u32_or_zero(o),
{
    match o {
        Some(v) => v,
        None => 0,
    }
}

fn windows_reading_exec(line: &Vec<char>) -> (r: Option<DisplayReading>)
    ensures
        match r {
            Some(d) => windows_reading(line@) == Some(d@),
            None => windows_reading(line@) is None,
        },
{
    let parts = split_exec(&trim_chars(line), '|');
    if parts.len() < 5 {
        return None;
    }
    let ghost pv = split(trim(line@), '|');
    assert(parts[0]@ == pv[0] && parts[1]@ == pv[1] && parts[2]@ == pv[2] && parts[3]@ == pv[3]
        && parts[4]@ == pv[4]);
    let name = trim_chars(&parts[1]);
    Some(
        DisplayReading {
            name: if name.len() == 0 {
                None
            } else {
                Some(from_chars(&name))
            },
            resolution_w: u32_or_zero_exec(parse_u32_chars(&parts[2])),
            resolution_h: u32_or_zero_exec(parse_u32_chars(&parts[3])),
            refresh_text: Some(from_chars(&parts[4])),
            is_primary: eq_str(&parts[0], "1"),
        },
    )
}

/// The displays of the Windows display listing, one line
/// `primary|name|width|height|frequency` each; lines of fewer fields are skipped.
pub fn parse_windows_displays(text: &str) -> (r: Vec<DisplayReading>)
    ensures
        reading_views(r@) == windows_readings(lines(text@)),
{
    let chars = to_chars(text);
    let ls = lines_exec(&chars);
    let ghost lv = views(ls@);
    let mut out: Vec<DisplayReading> = Vec::new();
    let mut k: usize = 0;
    assert(lv.take(0) =~= Seq::<Seq<char>>::empty());
    assert(reading_views(out@) =~= Seq::<DisplayReadingView>::empty());
    while k < ls.len()
        invariant
            k <= ls@.len(),
            lv == views(ls@),
            reading_views(out@) == windows_readings(lv.take(k as int)),
        decreases ls@.len() - k,
    {
        assert(lv.take(k + 1).drop_last() =~= lv.take(k as int));
        assert(lv.take(k + 1).last() == ls@[k as int]@);
        let ghost before = out@;
        match windows_reading_exec(&ls[k]) {
            Some(d) => {
                let ghost dv = d@;
                out.push(d);
                assert(reading_views(out@) =~= reading_views(before) + seq![dv]);
            },
            None => {
                assert(reading_views(out@) =~= reading_views(before) + seq![]);
            },
        }
        k = k + 1;
    }
    assert(lv.take(ls@.len() as int) =~= lv);
    out
}

fn trim_rate_exec(s: &Vec<char>) -> (r: Vec<char>)
    ensures
        r@ == trim_rate(s@),
{
    let n = s.len();
    let mut j: usize = n;
    assert(s@.subrange(0, n as int) =~= s@);
    while j > 0 && !('0' <= s[j - 1] && s[j - 1] <= '9') && s[j - 1] != '.'
        invariant
            j <= n == s@.len(),
            trim_rate(s@) == trim_rate(s@.subrange(0, j as int)),
        decreases j,
    {
        assert(s@.subrange(0, j as int).drop_last() =~= s@.subrange(0, j - 1));
        j = j - 1;
    }
    crate::text::slice_of(s, 0, j)
}

fn starred_exec(parts: &Vec<Vec<char>>) -> (r: Option<Vec<char>>)
    ensures
        match r {
            Some(p) => starred_from(views(parts@), 1) == Some(p@),
            None => starred_from(views(parts@), 1) is None,
        },
{
    let ghost pv = views(parts@);
    let mut i: usize = 1;
    if parts.len() == 0 {
        return None;
    }
    while i < parts.len()
        invariant
            1 <= i <= parts@.len(),
            pv == views(parts@),
            starred_from(pv, 1) == starred_from(pv, i as int),
        decreases parts@.len() - i,
    {
        assert(pv[i as int] == parts@[i as int]@);
        if contains_str(&parts[i], "*") {
            return Some(crate::text::slice_of(&parts[i], 0, parts[i].len()));
        }
        i = i + 1;
    }
    None
}

fn xrandr_mode_exec(d: DisplayReading, line: &Vec<char>) -> (r: DisplayReading)
    ensures
        r@ == xrandr_mode(d@, line@),
{
    let parts = words_exec(line);
    if parts.len() == 0 {
        return d;
    }
    assert(parts[0]@ == words(line@)[0]);
    let dims = split_exec(&parts[0], 'x');
    let d1 = if dims.len() == 2 {
        assert(dims[0]@ == split(parts[0]@, 'x')[0] && dims[1]@ == split(parts[0]@, 'x')[1]);
        DisplayReading {
            resolution_w: u32_or_zero_exec(parse_u32_chars(&dims[0])),
            resolution_h: u32_or_zero_exec(parse_u32_chars(&dims[1])),
            ..d
        }
    } else {
        d
    };
    match starred_exec(&parts) {
        Some(p) => DisplayReading { refresh_text: Some(from_chars(&trim_rate_exec(&p))), ..d1 },
        None => d1,
    }
}

fn first_word_exec(line: &Vec<char>) -> (r: Vec<char>)
    ensures
        r@ == first_word(line@),
{
    let w = words_exec(line);
    if w.len() > 0 {
        assert(w[0]@ == words(line@)[0]);
        crate::text::slice_of(&w[0], 0, w[0].len())
    } else {
        Vec::new()
    }
}

/// The displays of an `xrandr` listing: each connected output opens a display named
/// after it (primary if xrandr says so and it is the first); its current-mode line
/// (indented, marked '*') gives the resolution and the refresh rate.
pub fn parse_xrandr(text: &str) -> (r: Vec<DisplayReading>)
    ensures
        reading_views(r@) == xrandr_fold(lines(text@)).displays,
{
    let chars = to_chars(text);
    let ls = lines_exec(&chars);
    let ghost lv = views(ls@);
    let mut out: Vec<DisplayReading> = Vec::new();
    let mut first = true;
    let mut k: usize = 0;
    assert(lv.take(0) =~= Seq::<Seq<char>>::empty());
    assert(reading_views(out@) =~= Seq::<DisplayReadingView>::empty());
    while k < ls.len()
        invariant
            k <= ls@.len(),
            lv == views(ls@),
            lv == lines(text@),
            xrandr_fold(lv.take(k as int)) == (XrandrState {
                displays: reading_views(out@),
                first,
            }),
        decreases ls@.len() - k,
    {
        assert(lv.take(k + 1).drop_last() =~= lv.take(k as int));
        assert(lv.take(k + 1).last() == ls@[k as int]@);
        let line = &ls[k];
        let ghost before = out@;
        if contains_str(line, " connected") {
            let is_primary = contains_str(line, " primary ") && first;
            let d = DisplayReading {
                name: Some(from_chars(&first_word_exec(line))),
                resolution_w: 0,
                resolution_h: 0,
                refresh_text: None,
                is_primary,
            };
            let ghost dv = d@;
            out.push(d);
            assert(reading_views(out@) =~= reading_views(before).push(dv));
            first = false;
        } else if starts_with_chars(line, "   ") && contains_str(line, "*") && out.len() > 0 {
            let last = out.pop().unwrap();
            assert(last@ == reading_views(before).last());
            let d = xrandr_mode_exec(last, line);
            let ghost dv = d@;
            out.push(d);
            assert(reading_views(out@) =~= reading_views(before).update(before.len() - 1, dv));
        }
        k = k + 1;
    }
    assert(lv.take(ls@.len() as int) =~= lv);
    out
}

fn resolution_numbers_exec(fields: &Vec<Vec<char>>) -> (r: Vec<u32>)
    ensures
        r@ == resolution_numbers(views(fields@)),
{
    let ghost fv = views(fields@);
    let mut out: Vec<u32> = Vec::new();
    let mut k: usize = 0;
    assert(fv.take(0) =~= Seq::<Seq<char>>::empty());
    while k < fields.len()
        invariant
            k <= fields@.len(),
            fv == views(fields@),
            out@ == resolution_numbers(fv.take(k as int)),
        decreases fields@.len() - k,
    {
        assert(fv.take(k + 1).drop_last() =~= fv.take(k as int));
        assert(fv.take(k + 1).last() == fields@[k as int]@);
        let w = words_exec(&trim_chars(&fields[k]));
        let ghost before = out@;
        if w.len() > 0 {
            assert(w[0]@ == words(trim(fields@[k as int]@))[0]);
            match parse_u32_chars(&w[0]) {
                Some(v) => {
                    out.push(v);
                    assert(out@ =~= before + seq![v]);
                },
                None => {
                    assert(out@ =~= before + seq![]);
                },
            }
        } else {
            assert(out@ =~= before + seq![]);
        }
        k = k + 1;
    }
    assert(fv.take(fields@.len() as int) =~= fv);
    out
}

fn profiler_update_exec(d: DisplayReading, t: &Vec<char>) -> (r: DisplayReading)
    ensures
        r@ == profiler_update(d@, t@),
{
    if starts_with_chars(t, "Resolution:") {
        match after_char_exec(t, ':') {
            Some(val) => {
                let nums = resolution_numbers_exec(&split_exec(&val, 'x'));
                if nums.len() >= 2 {
                    DisplayReading { resolution_w: nums[0], resolution_h: nums[1], ..d }
                } else {
                    d
                }
            },
            None => d,
        }
    } else if starts_with_chars(t, "Refresh Rate:") {
        match after_char_exec(t, ':') {
            Some(val) => {
                let w = words_exec(&trim_chars(&val));
                let refresh = if w.len() > 0 {
                    assert(w[0]@ == words(trim(val@))[0]);
                    Some(from_chars(&w[0]))
                } else {
                    None
                };
                DisplayReading { refresh_text: refresh, ..d }
            },
            None => d,
        }
    } else {
        d
    }
}

pub open spec fn opt_reading_view(o: Option<DisplayReading>) -> Option<DisplayReadingView> {
    match o {
        Some(d) => Some(d@),
        None => None,
    }
}

/// The displays of a `system_profiler SPDisplaysDataType` listing: each display
/// header (indented eight spaces, ending in ':') opens a display, the first being
/// the primary one; its resolution and refresh rate lines fill it in.
pub fn parse_sp_displays(text: &str) -> (r: Vec<DisplayReading>)
    ensures
        reading_views(r@) == profiler_readings(text@),
{
    let chars = to_chars(text);
    let ls = lines_exec(&chars);
    let ghost lv = views(ls@);
    let mut out: Vec<DisplayReading> = Vec::new();
    let mut current: Option<DisplayReading> = None;
    let mut k: usize = 0;
    assert(lv.take(0) =~= Seq::<Seq<char>>::empty());
    assert(reading_views(out@) =~= Seq::<DisplayReadingView>::empty());
    while k < ls.len()
        invariant
            k <= ls@.len(),
            lv == views(ls@),
            lv == lines(text@),
            profiler_fold(lv.take(k as int)) == (ProfilerState {
                displays: reading_views(out@),
                current: opt_reading_view(current),
            }),
        decreases ls@.len() - k,
    {
        assert(lv.take(k + 1).drop_last() =~= lv.take(k as int));
        assert(lv.take(k + 1).last() == ls@[k as int]@);
        let line = &ls[k];
        let t = trim_chars(line);
        if ends_with_chars(&t, ":") && starts_with_chars(line, "        ") {
            let ghost before = out@;
            let cur = current;
            match cur {
                Some(d) => {
                    let ghost dv = d@;
                    out.push(d);
                    assert(reading_views(out@) =~= reading_views(before).push(dv));
                },
                None => {},
            }
            current = Some(
                DisplayReading {
                    name: Some(from_chars(&trim_end_char_exec(&t, ':'))),
                    resolution_w: 0,
                    resolution_h: 0,
                    refresh_text: None,
                    is_primary: out.len() == 0,
                },
            );
        } else {
            match current {
                Some(d) => {
                    current = Some(profiler_update_exec(d, &t));
                },
                None => {
                    current = None;
                },
            }
        }
        k = k + 1;
    }
    assert(lv.take(ls@.len() as int) =~= lv);
    match current {
        Some(d) => {
            let ghost before = out@;
            let ghost dv = d@;
            out.push(d);
            assert(reading_views(out@) =~= reading_views(before).push(dv));
        },
        None => {},
    }
    out
}

/// Where the display list comes from on each platform, as the platform handed it out.
pub enum DisplaySource {
    /// The output of the Windows display script, where it ran.
    Windows(Option<String>),
    /// The output of `xrandr`, where it ran and succeeded.
    Xrandr(Option<String>),
    /// The output of `system_profiler SPDisplaysDataType`, where it ran.
    SystemProfiler(Option<String>),
}

pub open spec fn readings_of_source(source: DisplaySource) -> Seq<DisplayReadingView> {
    match source {
        DisplaySource::Windows(Some(t)) => windows_readings(lines(t@)),
        DisplaySource::Xrandr(Some(t)) => xrandr_fold(lines(t@)).displays,
        DisplaySource::SystemProfiler(Some(t)) => profiler_readings(t@),
        _ => seq![],
    }
}

/// The displays of the machine, from the platform's listing.
pub fn collect(source: &DisplaySource) -> (r: Vec<DisplayReading>)
    ensures
        reading_views(r@) == readings_of_source(*source),
{
    match source {
        DisplaySource::Windows(Some(t)) => parse_windows_displays(t.as_str()),
        DisplaySource::Xrandr(Some(t)) => parse_xrandr(t.as_str()),
        DisplaySource::SystemProfiler(Some(t)) => parse_sp_displays(t.as_str()),
        _ => {
            let r: Vec<DisplayReading> = Vec::new();
            assert(reading_views(r@) =~= seq![]);
            r
        },
    }
}

proof fn lemma_xrandr_fold_primary(ls: Seq<Seq<char>>)
    ensures
        xrandr_fold(ls).first <==> xrandr_fold(ls).displays.len() == 0,
        forall|i: int|
            0 < i < xrandr_fold(ls).displays.len() ==> !(#[trigger] xrandr_fold(ls).displays[i]).is_primary,
    decreases ls.len(),
{
    if ls.len() > 0 {
        lemma_xrandr_fold_primary(ls.drop_last());
        let st = xrandr_fold(ls.drop_last());
        let nx = xrandr_fold(ls);
        assert forall|i: int| 0 < i < nx.displays.len() implies !(#[trigger] nx.displays[i]).is_primary by {
            if i < st.displays.len() {
                assert(nx.displays[i].is_primary == st.displays[i].is_primary);
            }
        }
    }
}

/// Only the first output of an xrandr listing can be the primary display: a
/// primary mark on any later output is not taken.
pub proof fn lemma_xrandr_primary_first(text: Seq<char>)
    ensures
        forall|i: int|
            0 < i < xrandr_fold(lines(text)).displays.len() ==> !(#[trigger] xrandr_fold(
                lines(text),
            ).displays[i]).is_primary,
{
    lemma_xrandr_fold_primary(lines(text));
}

proof fn lemma_profiler_fold_primary(ls: Seq<Seq<char>>)
    ensures
        forall|i: int|
            0 <= i < profiler_fold(ls).displays.len() ==> ((#[trigger] profiler_fold(ls).displays[i]).is_primary
                <==> i == 0),
        profiler_fold(ls).current matches Some(d) ==> (d.is_primary <==> profiler_fold(
            ls,
        ).displays.len() == 0),
    decreases ls.len(),
{
    if ls.len() > 0 {
        lemma_profiler_fold_primary(ls.drop_last());
        let st = profiler_fold(ls.drop_last());
        let nx = profiler_fold(ls);
        assert forall|i: int| 0 <= i < nx.displays.len() implies ((#[trigger] nx.displays[i]).is_primary
            <==> i == 0) by {
            if i < st.displays.len() {
                assert(nx.displays[i] == st.displays[i]);
            }
        }
    }
}

/// The first display that system_profiler lists is the primary one, and no other is.
pub proof fn lemma_profiler_primary_first(text: Seq<char>)
    ensures
        forall|i: int|
            0 <= i < profiler_readings(text).len() ==> ((#[trigger] profiler_readings(text)[i]).is_primary
                <==> i == 0),
{
    let st = profiler_fold(lines(text));
    lemma_profiler_fold_primary(lines(text));
    let r = profiler_readings(text);
    assert forall|i: int| 0 <= i < r.len() implies ((#[trigger] r[i]).is_primary <==> i == 0) by {
        if i < st.displays.len() {
            assert(r[i] == st.displays[i]);
        }
    }
}

/// The lines of an xrandr listing that announce a connected output, in order.
pub open spec fn connected_lines(ls: Seq<Seq<char>>) -> Seq<Seq<char>>
    decreases ls.len(),
{
    if ls.len() == 0 {
        seq![]
    } else {
        connected_lines(ls.drop_last()) + if contains(ls.last(), " connected"@) {
            seq![ls.last()]
        } else {
            seq![]
        }
    }
}

proof fn lemma_xrandr_fold_outputs(ls: Seq<Seq<char>>)
    ensures
        xrandr_fold(ls).displays.len() == connected_lines(ls).len(),
        forall|i: int|
            0 <= i < connected_lines(ls).len() ==> (#[trigger] xrandr_fold(ls).displays[i]).name
                == Some(first_word(connected_lines(ls)[i])),
        forall|i: int|
            0 <= i < connected_lines(ls).len() && (#[trigger] xrandr_fold(ls).displays[i]).is_primary
                ==> contains(connected_lines(ls)[i], " primary "@),
    decreases ls.len(),
{
    if ls.len() > 0 {
        lemma_xrandr_fold_outputs(ls.drop_last());
        let st = xrandr_fold(ls.drop_last());
        let nx = xrandr_fold(ls);
        let pc = connected_lines(ls.drop_last());
        let c = connected_lines(ls);
        assert forall|i: int| 0 <= i < c.len() implies (#[trigger] nx.displays[i]).name == Some(
            first_word(c[i]),
        ) && (nx.displays[i].is_primary ==> contains(c[i], " primary "@)) by {
            if i < pc.len() {
                assert(c[i] == pc[i]);
                assert(nx.displays[i].name == st.displays[i].name);
                assert(nx.displays[i].is_primary == st.displays[i].is_primary);
            }
        }
    }
}

/// An xrandr listing gives one display per connected output, in order, each named
/// after its output; only the first can be the primary one, and only when its line
/// marks it " primary ".
pub proof fn lemma_xrandr_outputs(text: Seq<char>)
    ensures
        xrandr_fold(lines(text)).displays.len() == connected_lines(lines(text)).len(),
        forall|i: int|
            0 <= i < connected_lines(lines(text)).len() ==> (#[trigger] xrandr_fold(
                lines(text),
            ).displays[i]).name == Some(first_word(connected_lines(lines(text))[i])),
        forall|i: int|
            0 <= i < connected_lines(lines(text)).len() && (#[trigger] xrandr_fold(
                lines(text),
            ).displays[i]).is_primary ==> i == 0 && contains(
                connected_lines(lines(text))[0],
                " primary "@,
            ),
{
    lemma_xrandr_fold_outputs(lines(text));
    lemma_xrandr_primary_first(text);
}

/// The display headers of a system_profiler listing (indented eight spaces, ending
/// in ':' once trimmed), in order.
pub open spec fn display_headers(ls: Seq<Seq<char>>) -> Seq<Seq<char>>
    decreases ls.len(),
{
    if ls.len() == 0 {
        seq![]
    } else {
        display_headers(ls.drop_last()) + if ends_with(trim(ls.last()), ":"@) && starts_with(
            ls.last(),
            "        "@,
        ) {
            seq![ls.last()]
        } else {
            seq![]
        }
    }
}

pub open spec fn header_name(h: Seq<char>) -> Option<Seq<char>> {
    Some(trim_end_char(trim(h), ':'))
}

pub open spec fn profiler_all(st: ProfilerState) -> Seq<DisplayReadingView> {
    match st.current {
        Some(d) => st.displays.push(d),
        None => st.displays,
    }
}

proof fn lemma_profiler_fold_headers(ls: Seq<Seq<char>>)
    ensures
        profiler_all(profiler_fold(ls)).len() == display_headers(ls).len(),
        forall|i: int|
            0 <= i < display_headers(ls).len() ==> (#[trigger] profiler_all(profiler_fold(ls))[i]).name
                == header_name(display_headers(ls)[i]),
    decreases ls.len(),
{
    if ls.len() > 0 {
        lemma_profiler_fold_headers(ls.drop_last());
        let st = profiler_fold(ls.drop_last());
        let nx = profiler_fold(ls);
        let a = profiler_all(st);
        let b = profiler_all(nx);
        let ph = display_headers(ls.drop_last());
        let h = display_headers(ls);
        assert forall|i: int| 0 <= i < h.len() implies (#[trigger] b[i]).name == header_name(h[i]) by {
            if i < ph.len() {
                assert(h[i] == ph[i]);
                assert(b[i].name == a[i].name);
            }
        }
    }
}

/// A system_profiler listing gives one display per display header, in order, named
/// after the header; the first is the primary one and no other is.
pub proof fn lemma_profiler_displays(text: Seq<char>)
    ensures
        profiler_readings(text).len() == display_headers(lines(text)).len(),
        forall|i: int|
            0 <= i < profiler_readings(text).len() ==> (#[trigger] profiler_readings(text)[i]).name
                == header_name(display_headers(lines(text))[i]) && (profiler_readings(
                text,
            )[i].is_primary <==> i == 0),
{
    lemma_profiler_fold_headers(lines(text));
    lemma_profiler_primary_first(text);
    assert(profiler_readings(text) == profiler_all(profiler_fold(lines(text))));
}

proof fn lemma_starred_first(parts: Seq<Seq<char>>, i: int)
    requires
        i >= 0,
    ensures
        forall|j: int|
            i <= j < parts.len() && contains(#[trigger] parts[j], "*"@) && (forall|m: int|
                i <= m < j ==> !contains(#[trigger] parts[m], "*"@)) ==> starred_from(parts, i)
                == Some(parts[j]),
        (forall|m: int| i <= m < parts.len() ==> !contains(#[trigger] parts[m], "*"@))
            ==> starred_from(parts, i) is None,
    decreases parts.len() - i,
{
    if i < parts.len() {
        lemma_starred_first(parts, i + 1);
        assert forall|j: int|
            i <= j < parts.len() && contains(#[trigger] parts[j], "*"@) && (forall|m: int|
                i <= m < j ==> !contains(#[trigger] parts[m], "*"@)) implies starred_from(parts, i)
            == Some(parts[j]) by {
            if j > i {
                assert(!contains(parts[i], "*"@));
            }
        }
    }
}

/// The refresh rate that an xrandr current-mode line gives is read from the first
/// word after the resolution that holds a '*' (the mode in use), cut after its last
/// digit or '.'; a line with no such word leaves the rate as it was.
pub proof fn lemma_xrandr_rate_is_starred(d: DisplayReadingView, line: Seq<char>)
    ensures
        forall|j: int|
            1 <= j < words(line).len() && contains(#[trigger] words(line)[j], "*"@) && (forall|
                m: int,
            | 1 <= m < j ==> !contains(#[trigger] words(line)[m], "*"@)) ==> xrandr_mode(
                d,
                line,
            ).refresh_text == Some(trim_rate(words(line)[j])),
        (forall|m: int| 1 <= m < words(line).len() ==> !contains(#[trigger] words(line)[m], "*"@))
            ==> xrandr_mode(d, line).refresh_text == d.refresh_text,
{
    lemma_starred_first(words(line), 1);
}

} // verus!