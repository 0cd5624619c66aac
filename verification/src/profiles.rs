//! Detection profiles and the per-frame decisions around them.
//!
//! A profile either looks for text patterns inside a fractional rectangle
//! of the frame, or for a bright-enough average pixel value. Profiles are
//! ordered; the first profile that matches a frame wins. A profile with a
//! debounce timeout blocks all sampling until the timeout has elapsed
//! since its last match. The numeric values of the built-in profiles are
//! calibration constants tuned against real recordings; they are not
//! derived from anything and must not be "corrected".

use vstd::prelude::*;
use vstd::string::StrSliceExecFns;
use vstd::string::StringSliceAdditionalSpecFns;
use crate::pixels::BinarisationParams;
use crate::pixels::BrightnessContrastParams;
use crate::pixels::FRAC_DEN;
use crate::pixels::Resize;
use crate::time::CANON_PER_SEC;

verus! {

/// Fractional search rectangle, each side in millionths of the frame's
/// dimensions.
pub struct SearchArea {
    pub top: i64,
    pub left: i64,
    pub width: i64,
    pub height: i64,
}

impl SearchArea {
    /// All four fractions lie in the unit interval.
    pub open spec fn wf(&self) -> bool {
        &&& 0 <= self.top <= FRAC_DEN
        &&& 0 <= self.left <= FRAC_DEN
        &&& 0 <= self.width <= FRAC_DEN
        &&& 0 <= self.height <= FRAC_DEN
    }
}

/// A pixel rectangle: left, top, width, height.
pub struct PixelRect {
    pub left: i64,
    pub top: i64,
    pub width: i64,
    pub height: i64,
}

/// Converts a fractional search area to pixel coordinates against a
/// frame of the given dimensions, truncating.
pub fn search_rect(area: &SearchArea, width: i64, height: i64) -> (r: PixelRect)
    requires
        area.wf(),
        0 <= width <= 0x7fff_ffff,
        0 <= height <= 0x7fff_ffff,
    ensures
        r.left == area.left * width / FRAC_DEN as int,
        r.top == area.top * height / FRAC_DEN as int,
        r.width == area.width * width / FRAC_DEN as int,
        r.height == area.height * height / FRAC_DEN as int,
{
    proof {
        lemma_frac_mul_bounds(area.left as int, width as int);
        lemma_frac_mul_bounds(area.top as int, height as int);
        lemma_frac_mul_bounds(area.width as int, width as int);
        lemma_frac_mul_bounds(area.height as int, height as int);
    }
    PixelRect {
        left: area.left * width / FRAC_DEN,
        top: area.top * height / FRAC_DEN,
        width: area.width * width / FRAC_DEN,
        height: area.height * height / FRAC_DEN,
    }
}

proof fn lemma_frac_mul_bounds(f: int, d: int)
    by (nonlinear_arith)
    requires
        0 <= f <= FRAC_DEN,
        0 <= d <= 0x7fff_ffff,
    ensures
        0 <= f * d <= FRAC_DEN * 0x7fff_ffff,
        0 <= f * d / FRAC_DEN as int <= d,
{
}

/// One detection profile.
pub enum SearchParam {
    Text {
        /// Lower-case byte patterns; any occurring as a substring of the
        /// recognized text is a match.
        patterns: Vec<Vec<u8>>,
        /// Debounce: no further sampling until this much time has passed
        /// since this profile's last match, canonical units.
        timeout: i64,
        /// Clip window before the match, canonical units.
        clip_length_before: i64,
        /// Clip window after the match, canonical units.
        clip_length_after: i64,
        /// Where in the frame to recognize text.
        search_area: SearchArea,
        /// The binarization envelope isolating the text.
        binarisation_params: BinarisationParams,
        /// Optional second pass when the plain binarization misses.
        brightness_contrast_params: Option<BrightnessContrastParams>,
        /// Optional downscale before recognition.
        resize: Option<Resize>,
    },
    AveragePixelValue {
        /// Mean byte value at or above which the profile matches.
        value: u8,
        clip_length_before: i64,
        clip_length_after: i64,
    },
}

impl SearchParam {
    /// The profile's debounce timeout; average-value profiles have none.
    pub open spec fn spec_timeout(&self) -> i64 {
        match self {
            SearchParam::Text { timeout, .. } => *timeout,
            SearchParam::AveragePixelValue { .. } => 0,
        }
    }

    /// The profile's debounce timeout.
    pub fn timeout(&self) -> (r: i64)
        ensures
            r == self.spec_timeout(),
    {
        match self {
            SearchParam::Text { timeout, .. } => *timeout,
            SearchParam::AveragePixelValue { .. } => 0,
        }
    }
}

/// Canonical timestamps small enough for debounce arithmetic.
pub open spec fn canon_bounded(t: int) -> bool {
    -0x4000_0000_0000_0000 < t < 0x4000_0000_0000_0000
}

/// The debounce stamp every profile starts with: far enough in the past
/// that no profile is blocked at the start of a scan.
pub const INITIAL_DEBOUNCE: i64 = -52428800000000;

/// One debounce stamp per profile, all initially long expired.
pub fn initial_last_times(n: usize) -> (r: Vec<i64>)
    ensures
        r@.len() == n,
        forall|i: int| 0 <= i < n ==> #[trigger] r@[i] == INITIAL_DEBOUNCE,
{
    let mut r: Vec<i64> = Vec::new();
    let mut i: usize = 0;
    while i < n
        invariant
            i <= n,
            r@.len() == i,
            forall|j: int| 0 <= j < i ==> #[trigger] r@[j] == INITIAL_DEBOUNCE,
        decreases n - i,
    {
        r.push(INITIAL_DEBOUNCE);
        i += 1;
    }
    r
}

/// Whether one profile's debounce timeout is still running at `time`:
/// that profile is skipped for this frame, the others stay eligible.
pub fn profile_blocked(
    last_times: &Vec<i64>,
    params: &Vec<SearchParam>,
    index: usize,
    time: i64,
) -> (r: bool)
    requires
        last_times@.len() == params@.len(),
        index < params@.len(),
        canon_bounded(last_times@[index as int] as int),
        canon_bounded(params@[index as int].spec_timeout() as int),
    ensures
        r == (last_times@[index as int] + params@[index as int].spec_timeout() > time),
{
    last_times[index] + params[index].timeout() > time
}

/// Stamps a profile's debounce timer at its match time.
pub fn record_match(last_times: &mut Vec<i64>, index: usize, time: i64)
    requires
        index < old(last_times)@.len(),
    ensures
        final(last_times)@ == old(last_times)@.update(index as int, time),
{
    last_times[index] = time;
}

/// The pattern marking elimination-style events whose clip length the
/// caller overrides; a calibration constant.
pub open spec fn elim_marker() -> Seq<u8> {
    ("iminated").spec_bytes()
}

/// The pattern marking assist events; a calibration constant.
pub open spec fn assist_marker() -> Seq<u8> {
    ("ass").spec_bytes()
}

/// The pattern marking round-win events, which are detected even while
/// spectating; a calibration constant.
pub open spec fn winners_marker() -> Seq<u8> {
    ("winners").spec_bytes()
}

/// `marker` occurs among the patterns, byte for byte.
pub open spec fn has_marker(patterns: Seq<Vec<u8>>, marker: Seq<u8>) -> bool {
    exists|p: int| 0 <= p < patterns.len() && (#[trigger] patterns[p]@) == marker
}

/// The clip length to use before a match: elimination-style profiles use
/// the caller-configured duration, all others their own.
pub fn effective_before(
    patterns: &Vec<Vec<u8>>,
    profile_before: i64,
    elim_clip_duration: i64,
) -> (r: i64)
    ensures
        r == if has_marker(patterns@, elim_marker()) || has_marker(patterns@, assist_marker()) {
            elim_clip_duration
        } else {
            profile_before
        },
{
    let elim = ("iminated").as_bytes_vec();
    let assist = ("ass").as_bytes_vec();
    if crate::matching::has_pattern(patterns, &elim) || crate::matching::has_pattern(
        patterns,
        &assist,
    ) {
        elim_clip_duration
    } else {
        profile_before
    }
}

/// Whether a profile is skipped because it detects assists and the scan
/// excludes them.
pub fn skip_for_assists(include_assists: bool, patterns: &Vec<Vec<u8>>) -> (r: bool)
    ensures
        r == (!include_assists && has_marker(patterns@, assist_marker())),
{
    if include_assists {
        return false;
    }
    let assist = ("ass").as_bytes_vec();
    crate::matching::has_pattern(patterns, &assist)
}

/// Whether the spectator rejection applies to a profile: it is skipped
/// for round-win profiles and when the scan includes spectated play.
pub fn needs_spectator_check(include_spectating: bool, patterns: &Vec<Vec<u8>>) -> (r: bool)
    ensures
        r == (!include_spectating && !has_marker(patterns@, winners_marker())),
{
    if include_spectating {
        return false;
    }
    let winners = ("winners").as_bytes_vec();
    !crate::matching::has_pattern(patterns, &winners)
}

/// The clip window a match at `time` produces.
pub fn clip_window(time: i64, before: i64, after: i64) -> (r: (i64, i64))
    requires
        canon_bounded(time as int),
        canon_bounded(before as int),
        canon_bounded(after as int),
    ensures
        r.0 == time - before,
        r.1 == time + after,
{
    (time - before, time + after)
}

/// Scan options the host hands the engine.
pub struct Args {
    pub include_assists: bool,
    pub include_spectating: bool,
    /// Clip length before elimination-style matches, canonical units.
    pub elim_clip_duration: i64,
    /// Upper bound on concurrent scan workers.
    pub threads: usize,
}

/// The calibration of the two elimination-style profiles: match text in
/// the kill-feed rectangle of a frame downscaled to 720 rows, binarized
/// against a near-white envelope, with a second inverted
/// brightness/contrast pass, no debounce, and a four-second window
/// before the match.
pub open spec fn elim_style_profile_spec(p: SearchParam, npatterns: int) -> bool {
    match p {
        SearchParam::Text {
            patterns,
            timeout,
            clip_length_before,
            clip_length_after,
            search_area,
            binarisation_params,
            brightness_contrast_params,
            resize,
        } => {
            &&& patterns.len() == npatterns
            &&& timeout == 0
            &&& clip_length_before == 4 * CANON_PER_SEC
            &&& clip_length_after == 0
            &&& search_area == (SearchArea { top: 604000, left: 200000, width: 420000, height: 91000 })
            &&& binarisation_params.min_rgb[0] == 215 && binarisation_params.min_rgb[1] == 215
                && binarisation_params.min_rgb[2] == 215
            &&& binarisation_params.max_rgb[0] == 255 && binarisation_params.max_rgb[1] == 254
                && binarisation_params.max_rgb[2] == 253
            &&& brightness_contrast_params == Some(BrightnessContrastParams {
                brightness: -800000i64,
                contrast: 10000000i64,
                invert: true,
            })
            &&& match resize {
                Some(rs) => rs.height == 720,
                None => false,
            }
        },
        SearchParam::AveragePixelValue { .. } => false,
    }
}

/// The calibration of the round-win profile: a thirty-second debounce, a
/// ten-second window on both sides, a center rectangle of a frame
/// downscaled to 360 rows, and a tighter white envelope.
pub open spec fn winners_profile_spec(p: SearchParam) -> bool {
    match p {
        SearchParam::Text {
            patterns,
            timeout,
            clip_length_before,
            clip_length_after,
            search_area,
            binarisation_params,
            brightness_contrast_params,
            resize,
        } => {
            &&& patterns.len() == 5
            &&& timeout == 30 * CANON_PER_SEC
            &&& clip_length_before == 10 * CANON_PER_SEC
            &&& clip_length_after == 10 * CANON_PER_SEC
            &&& search_area == (SearchArea { top: 400000, left: 170000, width: 690000, height: 200000 })
            &&& binarisation_params.min_rgb[0] == 248 && binarisation_params.min_rgb[1] == 248
                && binarisation_params.min_rgb[2] == 248
            &&& binarisation_params.max_rgb[0] == 255 && binarisation_params.max_rgb[1] == 255
                && binarisation_params.max_rgb[2] == 255
            &&& brightness_contrast_params == Some(BrightnessContrastParams {
                brightness: -800000i64,
                contrast: 10000000i64,
                invert: true,
            })
            &&& match resize {
                Some(rs) => rs.height == 360,
                None => false,
            }
        },
        SearchParam::AveragePixelValue { .. } => false,
    }
}

/// The patterns of profile `p`.
pub open spec fn profile_patterns(p: SearchParam) -> Seq<Vec<u8>> {
    match p {
        SearchParam::Text { patterns, .. } => patterns@,
        SearchParam::AveragePixelValue { .. } => Seq::empty(),
    }
}

/// The built-in detection profiles, in priority order: eliminations,
/// assists, round wins. Every number is a tuned calibration constant.
pub fn default_search_params() -> (r: Vec<SearchParam>)
    ensures
        r@.len() == 3,
        elim_style_profile_spec(r@[0], 37),
        elim_style_profile_spec(r@[1], 6),
        winners_profile_spec(r@[2]),
        has_marker(profile_patterns(r@[0]), elim_marker()),
        has_marker(profile_patterns(r@[2]), winners_marker()),
{
    let elim_patterns: Vec<Vec<u8>> = vec![
        ("elim").as_bytes_vec(),
        ("eliminated").as_bytes_vec(),
        ("bulhnates").as_bytes_vec(),
        ("ehiminated").as_bytes_vec(),
        ("eihiminated").as_bytes_vec(),
        ("eiiminated").as_bytes_vec(),
        ("elbinated").as_bytes_vec(),
        ("eliminaterd").as_bytes_vec(),
        ("elinated").as_bytes_vec(),
        ("elininated").as_bytes_vec(),
        ("elinminated").as_bytes_vec(),
        ("eliriinated").as_bytes_vec(),
        ("elirinated").as_bytes_vec(),
        ("elirmnated").as_bytes_vec(),
        ("elirnated").as_bytes_vec(),
        ("elminated").as_bytes_vec(),
        ("elrirated").as_bytes_vec(),
        ("eminated").as_bytes_vec(),
        ("eminater").as_bytes_vec(),
        ("euehnated").as_bytes_vec(),
        ("eulhnated").as_bytes_vec(),
        ("eulhyated").as_bytes_vec(),
        ("eultnated").as_bytes_vec(),
        ("euminated").as_bytes_vec(),
        ("fhninated").as_bytes_vec(),
        ("fiangted").as_bytes_vec(),
        ("fiiminaterd").as_bytes_vec(),
        ("fiminaier").as_bytes_vec(),
        ("fliinated").as_bytes_vec(),
        ("flrinated").as_bytes_vec(),
        ("fuchnater").as_bytes_vec(),
        ("furater").as_bytes_vec(),
        ("fushnated").as_bytes_vec(),
        ("hiinated").as_bytes_vec(),
        ("himinaied").as_bytes_vec(),
        ("iminated").as_bytes_vec(),
        ("suminates").as_bytes_vec(),
    ];
    let assist_patterns: Vec<Vec<u8>> = vec![
        ("assis").as_bytes_vec(),
        ("ssist").as_bytes_vec(),
        ("a58i8").as_bytes_vec(),
        ("as5i").as_bytes_vec(),
        ("amssr").as_bytes_vec(),
        ("5i5t").as_bytes_vec(),
    ];
    let winners_patterns: Vec<Vec<u8>> = vec![
        ("winners").as_bytes_vec(),
        ("qualif").as_bytes_vec(),
        ("lified").as_bytes_vec(),
        ("vinners").as_bytes_vec(),
        ("linkers").as_bytes_vec(),
    ];
    proof {
        assert(elim_patterns@[35]@ == elim_marker());
        assert(has_marker(elim_patterns@, elim_marker()));
        assert(winners_patterns@[0]@ == winners_marker());
        assert(has_marker(winners_patterns@, winners_marker()));
    }
    let elim = SearchParam::Text {
        patterns: elim_patterns,
        timeout: 0,
        clip_length_before: 4 * CANON_PER_SEC,
        clip_length_after: 0,
        search_area: SearchArea { top: 604000, left: 200000, width: 420000, height: 91000 },
        resize: Some(Resize { height: 720 }),
        binarisation_params: BinarisationParams {
            min_rgb: [215, 215, 215],
            max_rgb: [255, 254, 253],
        },
        brightness_contrast_params: Some(BrightnessContrastParams {
            brightness: -800000,
            contrast: 10000000,
            invert: true,
        }),
    };
    let assists = SearchParam::Text {
        patterns: assist_patterns,
        timeout: 0,
        clip_length_before: 4 * CANON_PER_SEC,
        clip_length_after: 0,
        search_area: SearchArea { top: 604000, left: 200000, width: 420000, height: 91000 },
        resize: Some(Resize { height: 720 }),
        binarisation_params: BinarisationParams {
            min_rgb: [215, 215, 215],
            max_rgb: [255, 254, 253],
        },
        brightness_contrast_params: Some(BrightnessContrastParams {
            brightness: -800000,
            contrast: 10000000,
            invert: true,
        }),
    };
    let winners = SearchParam::Text {
        patterns: winners_patterns,
        timeout: 30 * CANON_PER_SEC,
        clip_length_before: 10 * CANON_PER_SEC,
        clip_length_after: 10 * CANON_PER_SEC,
        search_area: SearchArea { top: 400000, left: 170000, width: 690000, height: 200000 },
        resize: Some(Resize { height: 360 }),
        binarisation_params: BinarisationParams {
            min_rgb: [248, 248, 248],
            max_rgb: [255, 255, 255],
        },
        brightness_contrast_params: Some(BrightnessContrastParams {
            brightness: -800000,
            contrast: 10000000,
            invert: true,
        }),
    };
    vec![elim, assists, winners]
}

} // verus!
