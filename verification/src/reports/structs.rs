//! The data that a size-delta report holds.
use vstd::prelude::*;
use vstd::string::*;

verus! {

/// A figure of a report: either a known value, or a note that none applies.
///
/// The note keeps the text that stood in the place of the value.
#[derive(Debug)]
pub enum SizeValue<T> {
    /// No value applies; the text says so in the report's own words.
    NotApplicable(String),
    /// A known value.
    Known(T),
}

impl<T> SizeValue<T> {
    /// The text that stands for a missing value unless a report says otherwise.
    pub open spec fn placeholder() -> Seq<char> {
        "N/A"@
    }

    /// Whether the value is missing and noted by the usual text.
    pub open spec fn is_placeholder(&self) -> bool {
        self matches SizeValue::NotApplicable(text) && text@ == Self::placeholder()
    }
}

impl<T> Default for SizeValue<T> {
    fn default() -> (value: Self)
        ensures
            value.is_placeholder(),
    {
        SizeValue::NotApplicable(String::from_str("N/A"))
    }
}

/// A relative change, as a single-precision binary floating-point number.
///
/// The number is held by its bit pattern, which orders it, and by its
/// decimal text, which shows it.
#[derive(Debug)]
pub struct Relative {
    /// The bit pattern of the number: one sign bit, eight exponent bits,
    /// twenty-three fraction bits.
    pub bits: u32,
    /// The number in decimal notation, with a leading `-` if it is negative.
    pub text: String,
}

/// A relative change as a plain value: the bit pattern and the decimal text.
pub struct RelativeView {
    pub bits: u32,
    pub text: Seq<char>,
}

impl View for Relative {
    type V = RelativeView;

    open spec fn view(&self) -> RelativeView {
        RelativeView { bits: self.bits, text: self.text@ }
    }
}

/// The magnitude bits of a pattern from which no number can be read.
pub open spec fn is_nan(bits: u32) -> bool {
    bits % 0x8000_0000 > 0x7f80_0000
}

/// The place of a number among all numbers: patterns of larger numbers have
/// larger ranks, and the two zeros share rank 0.
pub open spec fn rank(bits: u32) -> int {
    if bits >= 0x8000_0000 {
        0x8000_0000 - bits
    } else {
        bits as int
    }
}

/// Whether the number of pattern `a` is less than the number of pattern `b`.
/// Nothing is less than, or greater than, a pattern that is not a number.
pub open spec fn precedes(a: u32, b: u32) -> bool {
    !is_nan(a) && !is_nan(b) && rank(a) < rank(b)
}

impl Relative {
    /// Whether this number is less than `other`.
    pub fn less_than(&self, other: &Relative) -> (less: bool)
        ensures
            less == precedes(self.bits, other.bits),
    {
        !Self::nan(self.bits) && !Self::nan(other.bits) && Self::order(self.bits) < Self::order(
            other.bits,
        )
    }

    /// Whether this number is greater than zero.
    pub fn is_positive(&self) -> (positive: bool)
        ensures
            positive == precedes(0, self.bits),
    {
        !Self::nan(self.bits) && 0 < Self::order(self.bits)
    }

    /// A second value that holds the same number.
    pub fn duplicate(&self) -> (copy: Relative)
        ensures
            copy == *self,
    {
        Relative { bits: self.bits, text: self.text.clone() }
    }

    fn nan(bits: u32) -> (nan: bool)
        ensures
            nan == is_nan(bits),
    {
        bits % 0x8000_0000 > 0x7f80_0000
    }

    fn order(bits: u32) -> (place: i64)
        ensures
            place == rank(bits),
    {
        if bits >= 0x8000_0000 {
            0x8000_0000i64 - (bits as i64)
        } else {
            bits as i64
        }
    }
}

/// A size, and how it compares with the whole.
#[derive(Debug)]
pub struct SketchDeltaSize {
    /// The size in bytes, or the change of it; a change can be negative.
    pub absolute: SizeValue<i64>,
    /// The same figure relative to the capacity of the board, where the report gives it.
    pub relative: Option<SizeValue<Relative>>,
}

impl SketchDeltaSize {
    /// Whether the size is missing and nothing is said of its relative size.
    pub open spec fn is_blank(&self) -> bool {
        self.absolute.is_placeholder() && self.relative is None
    }
}

impl Default for SketchDeltaSize {
    fn default() -> (size: Self)
        ensures
            size.is_blank(),
    {
        SketchDeltaSize { absolute: SizeValue::default(), relative: None }
    }
}

/// What one kind of memory holds of a compiled sketch.
#[derive(Debug)]
pub struct SketchSize {
    /// The capacity of the memory. Older reports keep it here; newer ones keep
    /// it with the board, and nothing is computed from this field.
    pub maximum: Option<SizeValue<u64>>,
    /// The size after this compilation.
    pub current: SketchDeltaSize,
    /// The size after the compilation that this one is compared with, if there was one.
    pub previous: Option<SketchDeltaSize>,
    /// The change from `previous` to `current`, if there was a previous compilation.
    pub delta: Option<SketchDeltaSize>,
}

impl SketchSize {
    /// The figure that a summary shows for this record: the change where the
    /// report has one, and the current size where it has none.
    pub open spec fn effective_delta(&self) -> SketchDeltaSize {
        match self.delta {
            Some(delta) => delta,
            None => self.current,
        }
    }

    /// Whether the record holds nothing: a missing current size and no other figure.
    pub open spec fn is_blank(&self) -> bool {
        &&& self.maximum is None
        &&& self.current.is_blank()
        &&& self.previous is None
        &&& self.delta is None
    }

    /// The change in size, or the current size where no change is recorded.
    pub fn get_delta(&self) -> (delta: &SketchDeltaSize)
        ensures
            *delta == self.effective_delta(),
    {
        match &self.delta {
            Some(delta) => delta,
            None => &self.current,
        }
    }
}

impl Default for SketchSize {
    fn default() -> (size: Self)
        ensures
            size.is_blank(),
    {
        SketchSize { maximum: None, current: SketchDeltaSize::default(), previous: None, delta: None }
    }
}

/// A size record of a sketch, by the kind of memory that it speaks of.
#[derive(Debug)]
pub enum SketchSizeKind {
    /// The memory that global variables take.
    Ram { size: SketchSize },
    /// The flash memory that the program takes.
    Flash { size: SketchSize },
}

impl SketchSizeKind {
    /// The record itself, whatever memory it speaks of.
    pub open spec fn record(&self) -> SketchSize {
        match *self {
            SketchSizeKind::Ram { size } => size,
            SketchSizeKind::Flash { size } => size,
        }
    }
}

impl Default for SketchSizeKind {
    fn default() -> (kind: Self)
        ensures
            kind is Flash,
            kind.record().is_blank(),
    {
        SketchSizeKind::Flash { size: SketchSize::default() }
    }
}

/// The capacity of one kind of memory of a board.
#[derive(Debug)]
pub enum BoardSize {
    /// The capacity of the memory for global variables.
    Ram { maximum: Option<SizeValue<u64>> },
    /// The capacity of the flash memory.
    Flash { maximum: Option<SizeValue<u64>> },
}

impl BoardSize {
    /// The capacity that the entry gives, if it gives one.
    pub open spec fn maximum(&self) -> Option<SizeValue<u64>> {
        match *self {
            BoardSize::Ram { maximum } => maximum,
            BoardSize::Flash { maximum } => maximum,
        }
    }

    /// Whether the entry gives its capacity as a known number.
    pub open spec fn known_maximum(&self) -> bool {
        self.maximum() matches Some(SizeValue::Known(_))
    }

    /// Tells whether the capacity is present and a known number.
    pub fn has_maximum(&self) -> (known: bool)
        ensures
            known == self.known_maximum(),
    {
        match self {
            BoardSize::Ram { maximum } => matches!(maximum, Some(SizeValue::Known(_))),
            BoardSize::Flash { maximum } => matches!(maximum, Some(SizeValue::Known(_))),
        }
    }
}

impl Default for BoardSize {
    fn default() -> (size: Self)
        ensures
            size is Flash,
            size.maximum() is None,
    {
        BoardSize::Flash { maximum: None }
    }
}

/// A count that can be negative where it stands for a change.
#[derive(Debug)]
pub struct AbsCount {
    /// The count.
    pub absolute: i32,
}

impl Default for AbsCount {
    fn default() -> (count: Self)
        ensures
            count.absolute == 0,
    {
        AbsCount { absolute: 0 }
    }
}

/// The compiler warnings that a sketch gave.
#[derive(Debug)]
pub struct SketchWarnings {
    /// The warnings of this compilation.
    pub current: AbsCount,
    /// The warnings of the compilation that this one is compared with.
    pub previous: AbsCount,
    /// The change from `previous` to `current`.
    pub delta: AbsCount,
}

impl Default for SketchWarnings {
    fn default() -> (warnings: Self)
        ensures
            warnings.current.absolute == 0,
            warnings.previous.absolute == 0,
            warnings.delta.absolute == 0,
    {
        SketchWarnings {
            current: AbsCount::default(),
            previous: AbsCount::default(),
            delta: AbsCount::default(),
        }
    }
}

/// A compiled sketch.
#[derive(Debug)]
pub struct Sketch {
    /// The path of the sketch, mostly relative to the root of its project.
    pub name: String,
    /// Whether the sketch compiled.
    pub compilation_success: bool,
    /// The size records of the sketch, mostly one for flash and one for RAM.
    pub sizes: Vec<SketchSizeKind>,
    /// The compiler warnings, where the report counts them.
    pub warnings: Option<SketchWarnings>,
}

impl Default for Sketch {
    fn default() -> (sketch: Self)
        ensures
            sketch.name@.len() == 0,
            !sketch.compilation_success,
            sketch.sizes@.len() == 0,
            sketch.warnings is None,
    {
        Sketch { name: String::new(), compilation_success: false, sizes: Vec::new(), warnings: None }
    }
}

/// A board, the sketches that were compiled for it, and its capacities.
#[derive(Debug)]
pub struct Board {
    /// The fully qualified name of the board, which identifies it.
    pub board: String,
    /// The sketches that were compiled for the board.
    pub sketches: Vec<Sketch>,
    /// The capacities of the memories of the board.
    pub sizes: Option<Vec<BoardSize>>,
}

impl Board {
    /// Whether the board names at least one capacity, and each as a known number.
    pub open spec fn has_known_limits(&self) -> bool {
        &&& self.sizes matches Some(sizes)
        &&& sizes@.len() > 0
        &&& forall|i: int| 0 <= i < sizes@.len() ==> (#[trigger] sizes@[i]).known_maximum()
    }

    /// Tells whether the board names at least one capacity, and each as a known number.
    pub fn has_limits(&self) -> (complete: bool)
        ensures
            complete == self.has_known_limits(),
    {
        match &self.sizes {
            None => false,
            Some(sizes) => {
                if sizes.len() == 0 {
                    return false;
                }
                let mut i: usize = 0;
                while i < sizes.len()
                    invariant
                        self.sizes == Some(*sizes),
                        i <= sizes@.len(),
                        forall|j: int| 0 <= j < i ==> (#[trigger] sizes@[j]).known_maximum(),
                    decreases sizes@.len() - i,
                {
                    if !sizes[i].has_maximum() {
                        return false;
                    }
                    i += 1;
                }
                true
            },
        }
    }
}

impl Default for Board {
    fn default() -> (board: Self)
        ensures
            board.board@.len() == 0,
            board.sketches@.len() == 0,
            board.sizes is None,
    {
        Board { board: String::new(), sketches: Vec::new(), sizes: None }
    }
}

/// A report on one compilation run.
#[derive(Debug)]
pub struct Report {
    /// The boards that sketches were compiled for.
    pub boards: Vec<Board>,
    /// The hash of the commit that was compiled.
    pub commit_hash: String,
    /// The address of that commit.
    pub commit_url: String,
}

impl Report {
    /// Whether the report holds what a summary needs: at least one board, and
    /// for every board at least one capacity, each a known number.
    pub open spec fn valid(&self) -> bool {
        &&& self.boards@.len() > 0
        &&& forall|i: int| 0 <= i < self.boards@.len() ==> (#[trigger] self.boards@[i]).has_known_limits()
    }

    /// Tells whether the report holds what a summary needs.
    ///
    /// Reports of the older layout can be read, but they may lack the
    /// capacities of the board; such a report is not valid.
    pub fn is_valid(&self) -> (valid: bool)
        ensures
            valid == self.valid(),
    {
        if self.boards.len() == 0 {
            return false;
        }
        let mut i: usize = 0;
        while i < self.boards.len()
            invariant
                i <= self.boards@.len(),
                forall|j: int| 0 <= j < i ==> (#[trigger] self.boards@[j]).has_known_limits(),
            decreases self.boards@.len() - i,
        {
            if !self.boards[i].has_limits() {
                return false;
            }
            i += 1;
        }
        true
    }
}

impl Default for Report {
    fn default() -> (report: Self)
        ensures
            report.boards@.len() == 0,
            report.commit_hash@.len() == 0,
            report.commit_url@.len() == 0,
    {
        Report { boards: Vec::new(), commit_hash: String::new(), commit_url: String::new() }
    }
}

/// A report in the older layout, which speaks of a single board.
#[derive(Debug)]
pub struct ReportOld {
    /// The fully qualified name of the board.
    pub board: String,
    /// The hash of the commit that was compiled.
    pub commit_hash: String,
    /// The address of that commit.
    pub commit_url: String,
    /// The sketches that were compiled for the board.
    pub sketches: Vec<Sketch>,
    /// The capacities of the memories of the board, where the report has them.
    pub sizes: Option<Vec<BoardSize>>,
}

impl ReportOld {
    /// The report in the current layout that says the same: it has one board,
    /// which holds the name, the sketches and the capacities of this report.
    pub open spec fn upgraded(self, report: Report) -> bool {
        &&& report.boards@.len() == 1
        &&& report.boards@[0].board == self.board
        &&& report.boards@[0].sketches == self.sketches
        &&& report.boards@[0].sizes == self.sizes
        &&& report.commit_hash == self.commit_hash
        &&& report.commit_url == self.commit_url
    }

    /// Whether the report names at least one capacity, and each as a known number.
    pub open spec fn has_known_limits(&self) -> bool {
        &&& self.sizes matches Some(sizes)
        &&& sizes@.len() > 0
        &&& forall|i: int| 0 <= i < sizes@.len() ==> (#[trigger] sizes@[i]).known_maximum()
    }

    /// Rewrites the report in the current layout.
    pub fn upgrade(self) -> (report: Report)
        ensures
            self.upgraded(report),
    {
        let board = Board { board: self.board, sketches: self.sketches, sizes: self.sizes };
        let mut boards: Vec<Board> = Vec::new();
        boards.push(board);
        Report { boards, commit_hash: self.commit_hash, commit_url: self.commit_url }
    }
}

impl From<ReportOld> for Report {
    /// Rewrites a report of the older layout in the current one.
    fn from(value: ReportOld) -> (report: Report)
        ensures
            value.upgraded(report),
    {
        value.upgrade()
    }
}

impl vstd::std_specs::convert::FromSpecImpl<ReportOld> for Report {
    open spec fn obeys_from_spec() -> bool {
        false
    }

    open spec fn from_spec(value: ReportOld) -> Report {
        arbitrary()
    }
}

/// A report that was rewritten from the older layout has exactly one board,
/// and it holds what a summary needs exactly if the older report names at
/// least one capacity, each as a known number. Nothing else decides.
pub proof fn lemma_upgraded_validity(old: ReportOld, report: Report)
    requires
        old.upgraded(report),
    ensures
        report.boards@.len() == 1,
        report.valid() <==> old.has_known_limits(),
{
    assert(report.boards@[0].has_known_limits() <==> old.has_known_limits());
}

} // verus!
