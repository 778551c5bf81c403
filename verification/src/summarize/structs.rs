//! The ranges into which the figures of a board are folded.
use crate::reports::structs::{
    precedes, Relative, RelativeView, SizeValue, SketchDeltaSize, SketchSizeKind,
};
use crate::text::{decimal, integer_text, lemma_decimal_digits, push_decimal, signed_decimal};
use vstd::prelude::*;
use vstd::string::*;

verus! {

/// The text that stands for a range of which a bound is missing.
pub const NOT_APPLICABLE: &'static str = "N/A";

/// The mark of a range in which memory use goes down.
pub const EMOJI_DECREASE: &'static str = ":green_heart:";

/// The mark of a range in which memory use goes down for some sketches and up for others.
pub const EMOJI_AMBIGUOUS: &'static str = ":grey_question:";

/// The mark of a range in which memory use goes up.
pub const EMOJI_INCREASE: &'static str = ":small_red_triangle:";

/// A bound of a range: a size in bytes and the same size relative to the
/// capacity of the board.
#[derive(Debug)]
pub struct SizeKind {
    /// The size in bytes.
    pub absolute: SizeValue<i64>,
    /// The size relative to the capacity of the board.
    pub relative: SizeValue<Relative>,
}

/// The number that a figure holds, if it holds one.
pub open spec fn known_absolute(value: SizeValue<i64>) -> Option<int> {
    match value {
        SizeValue::Known(v) => Some(v as int),
        SizeValue::NotApplicable(_) => None,
    }
}

/// The relative change that a figure holds, if it holds one.
pub open spec fn known_relative(value: SizeValue<Relative>) -> Option<RelativeView> {
    match value {
        SizeValue::Known(v) => Some(v@),
        SizeValue::NotApplicable(_) => None,
    }
}

/// An integer as a summary shows it: a number above zero has a `+` before it.
pub open spec fn signed_text(v: int) -> Seq<char> {
    if v > 0 {
        seq!['+'] + signed_decimal(v)
    } else {
        signed_decimal(v)
    }
}

/// A relative change as a summary shows it: a number above zero has a `+` before it.
pub open spec fn signed_relative(v: RelativeView) -> Seq<char> {
    if precedes(0, v.bits) {
        seq!['+'] + v.text
    } else {
        v.text
    }
}

impl SizeKind {
    /// A size in bytes as a summary shows it: the number, with a `+` before it
    /// where it is above zero, or the text that stands in its place.
    pub open spec fn shown(value: SizeValue<i64>) -> Seq<char> {
        match value {
            SizeValue::Known(v) => signed_text(v as int),
            SizeValue::NotApplicable(text) => text@,
        }
    }

    /// A relative size as a summary shows it: the number, with a `+` before it
    /// where it is above zero, or the text that stands in its place.
    pub open spec fn shown_relative(value: SizeValue<Relative>) -> Seq<char> {
        match value {
            SizeValue::Known(v) => signed_relative(v@),
            SizeValue::NotApplicable(text) => text@,
        }
    }

    /// The text of a size in bytes.
    pub fn fmt(value: &SizeValue<i64>) -> (text: String)
        ensures
            text@ == Self::shown(*value),
    {
        match value {
            SizeValue::Known(v) => {
                if *v > 0 {
                    proof {
                        reveal_strlit("+");
                    }
                    let mut text = String::from_str("+");
                    push_decimal(&mut text, *v as u64);
                    text
                } else {
                    integer_text(*v)
                }
            },
            SizeValue::NotApplicable(text) => text.clone(),
        }
    }

    /// The text of a relative size.
    pub fn fmt_relative(value: &SizeValue<Relative>) -> (text: String)
        ensures
            text@ == Self::shown_relative(*value),
    {
        match value {
            SizeValue::Known(v) => {
                if v.is_positive() {
                    proof {
                        reveal_strlit("+");
                    }
                    let mut text = String::from_str("+");
                    text.append(v.text.as_str());
                    text
                } else {
                    v.text.clone()
                }
            },
            SizeValue::NotApplicable(text) => text.clone(),
        }
    }
}

impl Default for SizeKind {
    fn default() -> (kind: Self)
        ensures
            kind.absolute.is_placeholder(),
            kind.relative.is_placeholder(),
    {
        SizeKind { absolute: SizeValue::default(), relative: SizeValue::default() }
    }
}

/// A range as a plain value: the least and the greatest size in bytes, and
/// the least and the greatest relative size, as far as any was seen.
pub struct RangeView {
    pub absolute_low: Option<int>,
    pub absolute_high: Option<int>,
    pub relative_low: Option<RelativeView>,
    pub relative_high: Option<RelativeView>,
}

/// The lesser of a bound and a new size; the first size becomes the bound.
pub open spec fn lower(bound: Option<int>, size: int) -> Option<int> {
    match bound {
        Some(low) => if size < low { Some(size) } else { bound },
        None => Some(size),
    }
}

/// The greater of a bound and a new size; the first size becomes the bound.
pub open spec fn upper(bound: Option<int>, size: int) -> Option<int> {
    match bound {
        Some(high) => if size > high { Some(size) } else { bound },
        None => Some(size),
    }
}

/// The lesser of a bound and a new relative size. The bound stays unless the
/// new size is less than it; the first size becomes the bound.
pub open spec fn relative_lower(bound: Option<RelativeView>, size: RelativeView) -> Option<
    RelativeView,
> {
    match bound {
        Some(low) => if precedes(size.bits, low.bits) { Some(size) } else { bound },
        None => Some(size),
    }
}

/// The greater of a bound and a new relative size. The bound stays unless the
/// new size is greater than it; the first size becomes the bound.
pub open spec fn relative_upper(bound: Option<RelativeView>, size: RelativeView) -> Option<
    RelativeView,
> {
    match bound {
        Some(high) => if precedes(high.bits, size.bits) { Some(size) } else { bound },
        None => Some(size),
    }
}

/// The mark that goes before a range of sizes in bytes: none where nothing
/// changes, otherwise one for a decrease, one for an increase, and one for a
/// range that reaches from below zero to above it.
pub open spec fn marker(low: int, high: int) -> Seq<char> {
    if low < 0 && high <= 0 {
        EMOJI_DECREASE@
    } else if low == 0 && high == 0 {
        Seq::empty()
    } else if low >= 0 && high > 0 {
        EMOJI_INCREASE@
    } else {
        EMOJI_AMBIGUOUS@
    }
}

impl RangeView {
    /// The range in which nothing was seen yet.
    pub open spec fn blank() -> RangeView {
        RangeView {
            absolute_low: None,
            absolute_high: None,
            relative_low: None,
            relative_high: None,
        }
    }

    /// The range after a size in bytes was seen.
    pub open spec fn with_absolute(self, size: int) -> RangeView {
        RangeView {
            absolute_low: lower(self.absolute_low, size),
            absolute_high: upper(self.absolute_high, size),
            ..self
        }
    }

    /// The range after a relative size was seen.
    pub open spec fn with_relative(self, size: RelativeView) -> RangeView {
        RangeView {
            relative_low: relative_lower(self.relative_low, size),
            relative_high: relative_upper(self.relative_high, size),
            ..self
        }
    }

    /// The range after a figure of a sketch was seen. Its size in bytes and
    /// its relative size count each for itself, where they are known.
    pub open spec fn with_delta(self, delta: SketchDeltaSize) -> RangeView {
        let range = match delta.absolute {
            SizeValue::Known(size) => self.with_absolute(size as int),
            SizeValue::NotApplicable(_) => self,
        };
        match delta.relative {
            Some(SizeValue::Known(size)) => range.with_relative(size@),
            _ => range,
        }
    }

    /// The sizes in bytes as a summary shows them: the mark, the least and the
    /// greatest size; the placeholder where a bound is missing.
    pub open spec fn absolute_text(self) -> Seq<char> {
        match (self.absolute_low, self.absolute_high) {
            (Some(low), Some(high)) => marker(low, high) + seq![' '] + signed_text(low) + " - "@
                + signed_text(high),
            _ => NOT_APPLICABLE@,
        }
    }

    /// The relative sizes as a summary shows them: the least and the greatest
    /// size; the placeholder where a bound is missing.
    pub open spec fn relative_text(self) -> Seq<char> {
        match (self.relative_low, self.relative_high) {
            (Some(low), Some(high)) => signed_relative(low) + " - "@ + signed_relative(high),
            _ => NOT_APPLICABLE@,
        }
    }
}

/// The least and the greatest of the sizes that were seen for one kind of
/// memory of a board.
#[derive(Debug)]
pub struct SizeDeltaRange {
    /// The least size.
    pub minimum: SizeKind,
    /// The greatest size.
    pub maximum: SizeKind,
}

impl View for SizeDeltaRange {
    type V = RangeView;

    open spec fn view(&self) -> RangeView {
        RangeView {
            absolute_low: known_absolute(self.minimum.absolute),
            absolute_high: known_absolute(self.maximum.absolute),
            relative_low: known_relative(self.minimum.relative),
            relative_high: known_relative(self.maximum.relative),
        }
    }
}

impl Default for SizeDeltaRange {
    fn default() -> (range: Self)
        ensures
            range@ == RangeView::blank(),
            range.is_blank(),
    {
        SizeDeltaRange { minimum: SizeKind::default(), maximum: SizeKind::default() }
    }
}

impl SizeDeltaRange {
    /// Whether all bounds are missing and noted by the usual text.
    pub open spec fn is_blank(&self) -> bool {
        &&& self.minimum.absolute.is_placeholder()
        &&& self.minimum.relative.is_placeholder()
        &&& self.maximum.absolute.is_placeholder()
        &&& self.maximum.relative.is_placeholder()
    }

    /// Whether each bound that is missing is the bound of `before`, text and
    /// all: a bound changes only by taking a number.
    pub open spec fn keeps_missing(&self, before: SizeDeltaRange) -> bool {
        &&& self.minimum.absolute is NotApplicable ==> self.minimum.absolute
            == before.minimum.absolute
        &&& self.minimum.relative is NotApplicable ==> self.minimum.relative
            == before.minimum.relative
        &&& self.maximum.absolute is NotApplicable ==> self.maximum.absolute
            == before.maximum.absolute
        &&& self.maximum.relative is NotApplicable ==> self.maximum.relative
            == before.maximum.relative
    }

    /// Whether each bound that is missing is noted by the usual text.
    pub open spec fn tidy(&self) -> bool {
        &&& self.minimum.absolute is NotApplicable ==> self.minimum.absolute.is_placeholder()
        &&& self.minimum.relative is NotApplicable ==> self.minimum.relative.is_placeholder()
        &&& self.maximum.absolute is NotApplicable ==> self.maximum.absolute.is_placeholder()
        &&& self.maximum.relative is NotApplicable ==> self.maximum.relative.is_placeholder()
    }

    /// Takes a size in bytes into the range.
    pub fn add_absolute(&mut self, size: i64)
        ensures
            final(self)@ == old(self)@.with_absolute(size as int),
            final(self).minimum.relative == old(self).minimum.relative,
            final(self).maximum.relative == old(self).maximum.relative,
    {
        match self.minimum.absolute {
            SizeValue::NotApplicable(_) => {
                self.minimum.absolute = SizeValue::Known(size);
            },
            SizeValue::Known(val) => {
                if size < val {
                    self.minimum.absolute = SizeValue::Known(size);
                }
            },
        }
        match self.maximum.absolute {
            SizeValue::NotApplicable(_) => {
                self.maximum.absolute = SizeValue::Known(size);
            },
            SizeValue::Known(val) => {
                if size > val {
                    self.maximum.absolute = SizeValue::Known(size);
                }
            },
        }
    }

    /// Takes a relative size into the range.
    pub fn add_relative(&mut self, size: &Relative)
        ensures
            final(self)@ == old(self)@.with_relative(size@),
            final(self).minimum.absolute == old(self).minimum.absolute,
            final(self).maximum.absolute == old(self).maximum.absolute,
    {
        let lesser = match &self.minimum.relative {
            SizeValue::NotApplicable(_) => true,
            SizeValue::Known(val) => size.less_than(val),
        };
        if lesser {
            self.minimum.relative = SizeValue::Known(size.duplicate());
        }
        let greater = match &self.maximum.relative {
            SizeValue::NotApplicable(_) => true,
            SizeValue::Known(val) => val.less_than(size),
        };
        if greater {
            self.maximum.relative = SizeValue::Known(size.duplicate());
        }
    }

    /// Takes a figure of a sketch into the range.
    pub fn add_delta(&mut self, delta: &SketchDeltaSize)
        ensures
            final(self)@ == old(self)@.with_delta(*delta),
            delta.absolute is NotApplicable ==> final(self).minimum.absolute == old(
                self,
            ).minimum.absolute && final(self).maximum.absolute == old(self).maximum.absolute,
            !(delta.relative matches Some(SizeValue::Known(_))) ==> final(self).minimum.relative
                == old(self).minimum.relative && final(self).maximum.relative == old(
                self,
            ).maximum.relative,
    {
        if let SizeValue::Known(absolute) = delta.absolute {
            self.add_absolute(absolute);
        }
        if let Some(SizeValue::Known(relative)) = &delta.relative {
            self.add_relative(relative);
        }
    }

    /// The relative sizes of the range as text.
    pub fn summarize_relative(&self) -> (text: String)
        ensures
            text@ == self@.relative_text(),
    {
        match (&self.minimum.relative, &self.maximum.relative) {
            (SizeValue::Known(_), SizeValue::Known(_)) => {
                let mut text = SizeKind::fmt_relative(&self.minimum.relative);
                text.append(" - ");
                let high = SizeKind::fmt_relative(&self.maximum.relative);
                text.append(high.as_str());
                text
            },
            _ => String::from_str(NOT_APPLICABLE),
        }
    }

    /// The sizes in bytes of the range as text.
    pub fn summarize_absolute(&self) -> (text: String)
        ensures
            text@ == self@.absolute_text(),
    {
        match (&self.minimum.absolute, &self.maximum.absolute) {
            (SizeValue::Known(min), SizeValue::Known(max)) => {
                let emoji = if *min < 0 && *max <= 0 {
                    EMOJI_DECREASE
                } else if *min == 0 && *max == 0 {
                    ""
                } else if *min >= 0 && *max > 0 {
                    EMOJI_INCREASE
                } else {
                    EMOJI_AMBIGUOUS
                };
                proof {
                    reveal_strlit("");
                    reveal_strlit(" ");
                }
                let mut text = String::from_str(emoji);
                text.append(" ");
                let low = SizeKind::fmt(&self.minimum.absolute);
                text.append(low.as_str());
                text.append(" - ");
                let high = SizeKind::fmt(&self.maximum.absolute);
                text.append(high.as_str());
                text
            },
            _ => String::from_str(NOT_APPLICABLE),
        }
    }
}

/// The ranges of a board as a plain value.
pub struct SummaryView {
    pub flash: RangeView,
    pub ram: RangeView,
}

impl SummaryView {
    /// The summary of a board of which nothing was seen yet.
    pub open spec fn blank() -> SummaryView {
        SummaryView { flash: RangeView::blank(), ram: RangeView::blank() }
    }

    /// The summary after a size record of a sketch was seen: the figure that
    /// counts for the record goes into the range of its kind of memory.
    pub open spec fn with_size(self, size: SketchSizeKind) -> SummaryView {
        match size {
            SketchSizeKind::Ram { size } => SummaryView {
                ram: self.ram.with_delta(size.effective_delta()),
                ..self
            },
            SketchSizeKind::Flash { size } => SummaryView {
                flash: self.flash.with_delta(size.effective_delta()),
                ..self
            },
        }
    }
}

/// The ranges of flash and of RAM for one board.
#[derive(Debug)]
pub struct SizeSummary {
    /// The range of the flash memory.
    pub flash: SizeDeltaRange,
    /// The range of the memory for global variables.
    pub ram: SizeDeltaRange,
}

impl View for SizeSummary {
    type V = SummaryView;

    open spec fn view(&self) -> SummaryView {
        SummaryView { flash: self.flash@, ram: self.ram@ }
    }
}

impl Default for SizeSummary {
    fn default() -> (summary: Self)
        ensures
            summary@ == SummaryView::blank(),
            summary.flash.is_blank(),
            summary.ram.is_blank(),
            summary.tidy(),
    {
        SizeSummary { flash: SizeDeltaRange::default(), ram: SizeDeltaRange::default() }
    }
}

impl SizeSummary {
    /// Whether each bound that is missing is the bound of `before`, text and all.
    pub open spec fn keeps_missing(&self, before: SizeSummary) -> bool {
        self.flash.keeps_missing(before.flash) && self.ram.keeps_missing(before.ram)
    }

    /// Whether each bound that is missing is noted by the usual text.
    pub open spec fn tidy(&self) -> bool {
        self.flash.tidy() && self.ram.tidy()
    }

    /// Takes a size record of a sketch into the range of its kind of memory.
    pub fn add(&mut self, size: &SketchSizeKind)
        ensures
            final(self)@ == old(self)@.with_size(*size),
            size is Ram ==> final(self).flash == old(self).flash,
            size is Flash ==> final(self).ram == old(self).ram,
            size.record().effective_delta().absolute is NotApplicable ==> {
                &&& final(self).flash.minimum.absolute == old(self).flash.minimum.absolute
                &&& final(self).flash.maximum.absolute == old(self).flash.maximum.absolute
                &&& final(self).ram.minimum.absolute == old(self).ram.minimum.absolute
                &&& final(self).ram.maximum.absolute == old(self).ram.maximum.absolute
            },
            !(size.record().effective_delta().relative matches Some(SizeValue::Known(_))) ==> {
                &&& final(self).flash.minimum.relative == old(self).flash.minimum.relative
                &&& final(self).flash.maximum.relative == old(self).flash.maximum.relative
                &&& final(self).ram.minimum.relative == old(self).ram.minimum.relative
                &&& final(self).ram.maximum.relative == old(self).ram.maximum.relative
            },
            final(self).keeps_missing(*old(self)),
    {
        match size {
            SketchSizeKind::Ram { size } => {
                self.ram.add_delta(size.get_delta());
            },
            SketchSizeKind::Flash { size } => {
                self.flash.add_delta(size.get_delta());
            },
        }
    }
}

/// A known size above zero is shown with a `+` before its digits. A known
/// size of zero or below is shown without one: as its digits, after a `-` if
/// it is below zero. A missing size is shown as the text that stands for it.
pub proof fn lemma_shown_sign(value: SizeValue<i64>)
    ensures
        match value {
            SizeValue::Known(v) => {
                &&& v > 0 ==> SizeKind::shown(value) == seq!['+'] + decimal(v as nat)
                &&& v == 0 ==> SizeKind::shown(value) == seq!['0']
                &&& v < 0 ==> SizeKind::shown(value) == seq!['-'] + decimal((-v) as nat)
                &&& SizeKind::shown(value).len() > 0
                &&& SizeKind::shown(value)[0] == '+' <==> v > 0
            },
            SizeValue::NotApplicable(text) => SizeKind::shown(value) == text@,
        },
{
    if let SizeValue::Known(v) = value {
        if v >= 0 {
            lemma_decimal_digits(v as nat);
        } else {
            lemma_decimal_digits((-v) as nat);
        }
    }
}

/// A known relative size above zero is shown with a `+` before its text,
/// every other known one as its text alone, and a missing one as the text
/// that stands for it.
pub proof fn lemma_shown_relative_sign(value: SizeValue<Relative>)
    ensures
        match value {
            SizeValue::Known(v) => {
                &&& precedes(0, v.bits) ==> SizeKind::shown_relative(value) == seq!['+'] + v.text@
                &&& !precedes(0, v.bits) ==> SizeKind::shown_relative(value) == v.text@
            },
            SizeValue::NotApplicable(text) => SizeKind::shown_relative(value) == text@,
        },
{
}

/// Whether a range has no bound yet, or a least bound that is not above the greatest.
pub open spec fn well_formed(range: RangeView) -> bool {
    match (range.absolute_low, range.absolute_high) {
        (Some(low), Some(high)) => low <= high,
        (None, None) => true,
        _ => false,
    }
}

/// A size that is taken into a range lies within it afterwards, and a range
/// with both bounds never shrinks: the least bound does not go up and the
/// greatest does not go down.
pub proof fn lemma_range_grows(range: RangeView, size: int)
    requires
        well_formed(range),
    ensures
        well_formed(range.with_absolute(size)),
        range.with_absolute(size).absolute_low matches Some(low) && low <= size,
        range.with_absolute(size).absolute_high matches Some(high) && size <= high,
        range.absolute_low matches Some(low) ==> range.with_absolute(size).absolute_low->0 <= low,
        range.absolute_high matches Some(high) ==> range.with_absolute(size).absolute_high->0
            >= high,
        range.with_absolute(size).relative_low == range.relative_low,
        range.with_absolute(size).relative_high == range.relative_high,
{
}

/// The range after the given sizes in bytes were seen, in their order.
pub open spec fn absolutes_into(range: RangeView, sizes: Seq<int>) -> RangeView
    decreases sizes.len(),
{
    if sizes.len() == 0 {
        range
    } else {
        absolutes_into(range, sizes.drop_last()).with_absolute(sizes.last())
    }
}

/// After sizes were taken into a blank range, its least bound is the least of
/// them and its greatest bound is the greatest of them.
pub proof fn lemma_range_of_sizes(sizes: Seq<int>)
    requires
        sizes.len() > 0,
    ensures
        absolutes_into(RangeView::blank(), sizes).absolute_low matches Some(low) && sizes.contains(
            low,
        ) && forall|i: int| 0 <= i < sizes.len() ==> low <= sizes[i],
        absolutes_into(RangeView::blank(), sizes).absolute_high matches Some(high)
            && sizes.contains(high) && forall|i: int| 0 <= i < sizes.len() ==> sizes[i] <= high,
    decreases sizes.len(),
{
    let earlier = sizes.drop_last();
    if earlier.len() > 0 {
        lemma_range_of_sizes(earlier);
        let low = absolutes_into(RangeView::blank(), earlier).absolute_low->0;
        let high = absolutes_into(RangeView::blank(), earlier).absolute_high->0;
        let i = choose|i: int| 0 <= i < earlier.len() && earlier[i] == low;
        assert(sizes[i] == low);
        let j = choose|j: int| 0 <= j < earlier.len() && earlier[j] == high;
        assert(sizes[j] == high);
        assert forall|k: int| 0 <= k < sizes.len() implies absolutes_into(
            RangeView::blank(),
            sizes,
        ).absolute_low->0 <= sizes[k] by {
            if k < earlier.len() {
                assert(earlier[k] == sizes[k]);
            }
        }
        assert forall|k: int| 0 <= k < sizes.len() implies sizes[k] <= absolutes_into(
            RangeView::blank(),
            sizes,
        ).absolute_high->0 by {
            if k < earlier.len() {
                assert(earlier[k] == sizes[k]);
            }
        }
    }
    assert(sizes[sizes.len() - 1] == sizes.last());
}

/// A blank range that takes in a single figure whose size in bytes and whose
/// relative size are both known has that figure as its least and as its
/// greatest bound.
pub proof fn lemma_single_figure(delta: SketchDeltaSize)
    requires
        delta.absolute is Known,
        delta.relative matches Some(SizeValue::Known(_)),
    ensures
        RangeView::blank().with_delta(delta).absolute_low == Some(delta.absolute->Known_0 as int),
        RangeView::blank().with_delta(delta).absolute_high == Some(delta.absolute->Known_0 as int),
        RangeView::blank().with_delta(delta).relative_low == Some(delta.relative->0->Known_0@),
        RangeView::blank().with_delta(delta).relative_high == Some(delta.relative->0->Known_0@),
{
}

} // verus!
