//! A bounded display projection of an input-method composition: the text
//! shows the preedit in place of the replaced span, while the document and
//! its history stay unchanged.
use core::ops::Range;
use vstd::prelude::*;

verus! {

/// Why a projection could not answer.
#[derive(Clone, Copy, Debug, Eq, PartialEq, Structural)]
pub enum ProjectionError {
    /// A line or UTF-16 index lies beyond the text.
    OutOfRange,
}

/// Where one line of a text lies.
#[derive(Clone, Copy, Debug, Eq, PartialEq, Structural)]
pub struct LineSpan {
    /// Byte offset of the line's first byte.
    pub start_byte: usize,
    /// Byte offset one past the line's last byte.
    pub end_byte: usize,
    /// UTF-16 offset of the line's first unit.
    pub start_utf16: usize,
}

/// The lines of a text as the projection reads them: where each starts and
/// ends, and the text's length in UTF-16 units.
pub struct LineTable {
    lines: Vec<LineSpan>,
    len_utf16: usize,
}

/// A line table's contents, as values.
pub struct LinesModel {
    pub lines: Seq<LineSpan>,
    pub len_utf16: usize,
}

/// Lines that start at zero, each after the one before, within the text.
pub open spec fn lines_valid(m: LinesModel) -> bool {
    &&& m.lines.len() > 0
    &&& m.lines[0].start_byte == 0
    &&& m.lines[0].start_utf16 == 0
    &&& forall|k: int| 0 <= k < m.lines.len() ==> (#[trigger] m.lines[k]).start_byte <= m.lines[k].end_byte
    &&& forall|k: int| 0 <= k < m.lines.len() ==> (#[trigger] m.lines[k]).start_utf16 <= m.len_utf16
    &&& forall|i: int, j: int|
        0 <= i < j < m.lines.len() ==> (#[trigger] m.lines[i]).end_byte <= (#[trigger] m.lines[j]).start_byte
            && m.lines[i].start_utf16 < m.lines[j].start_utf16
}

impl View for LineTable {
    type V = LinesModel;

    closed spec fn view(&self) -> LinesModel {
        LinesModel { lines: self.lines@, len_utf16: self.len_utf16 }
    }
}

impl LineTable {
    #[verifier::type_invariant]
    spec fn well_formed(self) -> bool {
        lines_valid(self@)
    }

    /// The table of `lines` in a text of `len_utf16` units; none unless the
    /// lines start at zero, each after the one before, within the text.
    pub fn new(lines: Vec<LineSpan>, len_utf16: usize) -> (r: Option<LineTable>)
        ensures
            match r {
                Some(t) => lines_valid(LinesModel { lines: lines@, len_utf16 }) && t@ == (LinesModel {
                    lines: lines@,
                    len_utf16,
                }),
                None => !lines_valid(LinesModel { lines: lines@, len_utf16 }),
            },
    {
        let n = lines.len();
        if n == 0 || lines[0].start_byte != 0 || lines[0].start_utf16 != 0 {
            return None;
        }
        let mut k: usize = 0;
        while k < n
            invariant
                n == lines@.len(),
                n > 0,
                k <= n,
                lines@[0].start_byte == 0,
                lines@[0].start_utf16 == 0,
                forall|i: int| 0 <= i < k ==> (#[trigger] lines@[i]).start_byte <= lines@[i].end_byte,
                forall|i: int| 0 <= i < k ==> (#[trigger] lines@[i]).start_utf16 <= len_utf16,
                forall|i: int|
                    0 <= i < k && i + 1 < n ==> (#[trigger] lines@[i]).end_byte <= lines@[i + 1].start_byte
                        && lines@[i].start_utf16 < lines@[i + 1].start_utf16,
            decreases n - k,
        {
            let line = lines[k];
            if line.start_byte > line.end_byte || line.start_utf16 > len_utf16 {
                return None;
            }
            if k + 1 < n {
                let next = lines[k + 1];
                if line.end_byte > next.start_byte || line.start_utf16 >= next.start_utf16 {
                    return None;
                }
            }
            k += 1;
        }
        proof {
            assert forall|i: int, j: int| 0 <= i < j < n implies (#[trigger] lines@[i]).end_byte
                <= (#[trigger] lines@[j]).start_byte && lines@[i].start_utf16 < lines@[j].start_utf16 by {
                lemma_lines_chain(lines@, i, j);
            }
        }
        Some(LineTable { lines, len_utf16 })
    }

    /// Number of lines.
    pub fn line_count(&self) -> (n: usize)
        ensures
            n == self@.lines.len(),
            n > 0,
    {
        proof {
            use_type_invariant(self);
        }
        self.lines.len()
    }

    /// Length of the text in UTF-16 units.
    pub fn len_utf16(&self) -> (n: usize)
        ensures
            n == self@.len_utf16,
    {
        self.len_utf16
    }

    /// The bytes of line `k`.
    pub fn line_byte_range(&self, k: usize) -> (r: Result<Range<usize>, ProjectionError>)
        ensures
            k < self@.lines.len() ==> r == Ok::<Range<usize>, ProjectionError>(
                self@.lines[k as int].start_byte..self@.lines[k as int].end_byte,
            ),
            k >= self@.lines.len() ==> r == Err::<Range<usize>, ProjectionError>(ProjectionError::OutOfRange),
    {
        if k < self.lines.len() {
            Ok(self.lines[k].start_byte..self.lines[k].end_byte)
        } else {
            Err(ProjectionError::OutOfRange)
        }
    }

    /// The line that holds UTF-16 offset `index`.
    pub fn line_of_utf16(&self, index: usize) -> (r: Result<usize, ProjectionError>)
        ensures
            index > self@.len_utf16 ==> r == Err::<usize, ProjectionError>(ProjectionError::OutOfRange),
            index <= self@.len_utf16 ==> r == Ok::<usize, ProjectionError>(line_of(self@, index) as usize),
    {
        proof {
            use_type_invariant(self);
        }
        if index > self.len_utf16 {
            return Err(ProjectionError::OutOfRange);
        }
        let n = self.lines.len();
        let mut lo: usize = 0;
        let mut hi: usize = n;
        while hi - lo > 1
            invariant
                n == self@.lines.len(),
                lines_valid(self@),
                0 <= lo < hi <= n,
                self@.lines[lo as int].start_utf16 <= index,
                hi < n ==> self@.lines[hi as int].start_utf16 > index,
            decreases hi - lo,
        {
            let mid = lo + (hi - lo) / 2;
            if self.lines[mid].start_utf16 <= index {
                lo = mid;
            } else {
                hi = mid;
            }
        }
        proof {
            lemma_line_of_unique(self@, index, lo as int);
        }
        Ok(lo)
    }
}

proof fn lemma_lines_chain(lines: Seq<LineSpan>, i: int, j: int)
    requires
        0 <= i < j < lines.len(),
        forall|k: int| 0 <= k < lines.len() ==> (#[trigger] lines[k]).start_byte <= lines[k].end_byte,
        forall|k: int|
            0 <= k < lines.len() && k + 1 < lines.len() ==> (#[trigger] lines[k]).end_byte <= lines[k
                + 1].start_byte && lines[k].start_utf16 < lines[k + 1].start_utf16,
    ensures
        lines[i].end_byte <= lines[j].start_byte,
        lines[i].start_utf16 < lines[j].start_utf16,
    decreases j - i,
{
    if j > i + 1 {
        lemma_lines_chain(lines, i, j - 1);
        assert(lines[j - 1].start_byte <= lines[j - 1].end_byte);
    }
}

/// The line of `m` that holds UTF-16 offset `index`: the last that starts
/// at or before it.
pub open spec fn line_of(m: LinesModel, index: usize) -> int {
    choose|k: int|
        0 <= k < m.lines.len() && (#[trigger] m.lines[k]).start_utf16 <= index && (k + 1 < m.lines.len()
            ==> m.lines[k + 1].start_utf16 > index)
}

proof fn lemma_line_of_unique(m: LinesModel, index: usize, k: int)
    requires
        lines_valid(m),
        0 <= k < m.lines.len(),
        m.lines[k].start_utf16 <= index,
        k + 1 < m.lines.len() ==> m.lines[k + 1].start_utf16 > index,
    ensures
        line_of(m, index) == k,
{
    let c = line_of(m, index);
    assert(0 <= c < m.lines.len() && m.lines[c].start_utf16 <= index && (c + 1 < m.lines.len()
        ==> m.lines[c + 1].start_utf16 > index));
    if c < k {
        if c + 1 < k {
            assert(m.lines[c + 1].start_utf16 < m.lines[k].start_utf16);
        }
    } else if c > k {
        if k + 1 < c {
            assert(m.lines[k + 1].start_utf16 < m.lines[c].start_utf16);
        }
    }
}

/// The line that holds `index` exists and is unique.
pub proof fn lemma_line_of(m: LinesModel, index: usize)
    requires
        lines_valid(m),
        index <= m.len_utf16,
    ensures
        0 <= line_of(m, index) < m.lines.len(),
        m.lines[line_of(m, index)].start_utf16 <= index,
        line_of(m, index) + 1 < m.lines.len() ==> m.lines[line_of(m, index) + 1].start_utf16 > index,
{
    lemma_line_from(m, index, 0);
}

proof fn lemma_line_from(m: LinesModel, index: usize, k: int)
    requires
        lines_valid(m),
        0 <= k < m.lines.len(),
        m.lines[k].start_utf16 <= index,
    ensures
        0 <= line_of(m, index) < m.lines.len(),
        m.lines[line_of(m, index)].start_utf16 <= index,
        line_of(m, index) + 1 < m.lines.len() ==> m.lines[line_of(m, index) + 1].start_utf16 > index,
    decreases m.lines.len() - k,
{
    if k + 1 < m.lines.len() && m.lines[k + 1].start_utf16 <= index {
        lemma_line_from(m, index, k + 1);
    } else {
        lemma_line_of_unique(m, index, k);
    }
}

/// A projection, as values: the source and segment tables, where the
/// segment stands in the source, and the replaced and marked UTF-16 ranges.
pub struct ProjectionModel {
    pub source: LinesModel,
    pub segment: LinesModel,
    pub first_line: usize,
    pub after_source_line: usize,
    pub segment_lines: usize,
    pub base_utf16: usize,
    pub source_end_utf16: usize,
    pub segment_utf16: usize,
    pub replaced: Range<usize>,
    pub mark: Range<usize>,
}

/// The parts of a projection agree: the segment replaces source lines
/// `first_line..after_source_line`, begins at UTF-16 offset `base_utf16`
/// and ends where source line `after_source_line` begins, and every
/// display line and offset fits a `usize`.
pub open spec fn coherent(m: ProjectionModel) -> bool {
    &&& lines_valid(m.source)
    &&& lines_valid(m.segment)
    &&& m.first_line < m.after_source_line <= m.source.lines.len()
    &&& m.segment_lines <= m.segment.lines.len()
    &&& m.first_line + m.segment.lines.len() + m.source.lines.len() <= usize::MAX
    &&& m.segment_utf16 == m.segment.len_utf16
    &&& m.source_end_utf16 <= m.source.len_utf16
    &&& m.after_source_line < m.source.lines.len() ==> m.source.lines[m.after_source_line as int].start_utf16
        == m.source_end_utf16
    &&& m.base_utf16 + m.segment_utf16 + (m.source.len_utf16 - m.source_end_utf16) <= usize::MAX
    &&& m.replaced.start <= m.replaced.end
    &&& m.mark.start <= m.mark.end
    &&& m.mark.start == m.replaced.start
}

/// A display projection of a composition over a source text.
pub struct Projection {
    source: LineTable,
    segment: LineTable,
    first_line: usize,
    after_source_line: usize,
    segment_lines: usize,
    base_utf16: usize,
    source_end_utf16: usize,
    segment_utf16: usize,
    replaced: Range<usize>,
    mark: Range<usize>,
}

impl View for Projection {
    type V = ProjectionModel;

    closed spec fn view(&self) -> ProjectionModel {
        ProjectionModel {
            source: self.source@,
            segment: self.segment@,
            first_line: self.first_line,
            after_source_line: self.after_source_line,
            segment_lines: self.segment_lines,
            base_utf16: self.base_utf16,
            source_end_utf16: self.source_end_utf16,
            segment_utf16: self.segment_utf16,
            replaced: self.replaced,
            mark: self.mark,
        }
    }
}

/// One display line of a projection: the table it comes from, its line in
/// that table, its display line, the UTF-16 offset of its start in the
/// display, and its source line when it lies outside the segment.
pub struct Line<'a> {
    pub snapshot: &'a LineTable,
    pub local: usize,
    pub display: usize,
    pub base_utf16: usize,
    pub source: Option<usize>,
}

/// A display line, as values.
pub struct LineModel {
    pub in_segment: bool,
    pub local: usize,
    pub display: usize,
    pub base_utf16: usize,
    pub source: Option<usize>,
}

/// Number of display lines.
pub open spec fn line_count_spec(m: ProjectionModel) -> int {
    m.first_line + m.segment_lines + m.source.lines.len() - m.after_source_line
}

/// Display line `display`: before the segment it is the source line, inside
/// it a segment line, after it the source line shifted past the segment.
pub open spec fn line_spec(m: ProjectionModel, display: usize) -> Result<LineModel, ProjectionError> {
    let after = m.first_line + m.segment_lines;
    let (in_segment, local, source) = if display < m.first_line {
        (false, display as int, Some(display))
    } else if display < after {
        (true, display - m.first_line, None::<usize>)
    } else {
        let local = m.after_source_line + display - after;
        (false, local, Some(local as usize))
    };
    let table = if in_segment {
        m.segment
    } else {
        m.source
    };
    if local >= table.lines.len() {
        Err(ProjectionError::OutOfRange)
    } else {
        let start = table.lines[local].start_utf16;
        let base = if in_segment {
            start + m.base_utf16
        } else if display >= after {
            start - m.source_end_utf16 + m.base_utf16 + m.segment_utf16
        } else {
            start as int
        };
        Ok(LineModel { in_segment, local: local as usize, display, base_utf16: base as usize, source })
    }
}

/// The display line number that holds display UTF-16 offset `index`:
/// before the segment the source line, inside it (or at the text's end when
/// the segment reaches it) a segment line, after it the source line shifted
/// past the segment.
pub open spec fn display_line_of_utf16(m: ProjectionModel, index: usize) -> Result<usize, ProjectionError> {
    let segment_end = m.base_utf16 + m.segment_utf16;
    if index < m.base_utf16 {
        if index > m.source.len_utf16 {
            Err(ProjectionError::OutOfRange)
        } else {
            Ok(line_of(m.source, index) as usize)
        }
    } else if index < segment_end || m.after_source_line == m.source.lines.len() {
        if index - m.base_utf16 > m.segment.len_utf16 {
            Err(ProjectionError::OutOfRange)
        } else {
            Ok((m.first_line + line_of(m.segment, (index - m.base_utf16) as usize)) as usize)
        }
    } else {
        let source_index = index - segment_end + m.source_end_utf16;
        if source_index > m.source.len_utf16 {
            Err(ProjectionError::OutOfRange)
        } else {
            let line = line_of(m.source, source_index as usize);
            Ok((m.first_line + m.segment_lines + line - m.after_source_line) as usize)
        }
    }
}

/// The display line that holds display UTF-16 offset `index`.
pub open spec fn line_at_utf16_spec(m: ProjectionModel, index: usize) -> Result<LineModel, ProjectionError> {
    match display_line_of_utf16(m, index) {
        Ok(display) => line_spec(m, display),
        Err(e) => Err(e),
    }
}

/// The display offset of source offset `index`: unchanged before the
/// replaced span, none inside it, shifted past the mark after it; a
/// downstream caret at an empty replacement goes after the mark.
pub open spec fn source_to_display_spec(m: ProjectionModel, index: usize, downstream: bool) -> Option<usize> {
    if downstream && m.replaced.start == m.replaced.end && index == m.replaced.start {
        Some(m.mark.end)
    } else if index <= m.replaced.start {
        Some(index)
    } else if index < m.replaced.end {
        None
    } else if index - m.replaced.end + m.mark.end > usize::MAX {
        None
    } else {
        Some((index - m.replaced.end + m.mark.end) as usize)
    }
}

/// The source offset of display offset `index`: unchanged before the mark,
/// the replaced span's start inside it, shifted back past it after it.
pub open spec fn display_to_source_spec(m: ProjectionModel, index: usize) -> Option<usize> {
    if index <= m.mark.start {
        Some(index)
    } else if index < m.mark.end {
        Some(m.replaced.start)
    } else if index - m.mark.end + m.replaced.end > usize::MAX {
        None
    } else {
        Some((index - m.mark.end + m.replaced.end) as usize)
    }
}

impl Projection {
    #[verifier::type_invariant]
    spec fn parts_agree(self) -> bool {
        coherent(self@)
    }

    /// A projection from its parts; none unless they agree.
    pub fn from_parts(
        source: LineTable,
        segment: LineTable,
        first_line: usize,
        after_source_line: usize,
        segment_lines: usize,
        base_utf16: usize,
        source_end_utf16: usize,
        replaced: Range<usize>,
        mark: Range<usize>,
    ) -> (r: Option<Projection>)
        ensures
            ({
                let m = ProjectionModel {
                    source: source@,
                    segment: segment@,
                    first_line,
                    after_source_line,
                    segment_lines,
                    base_utf16,
                    source_end_utf16,
                    segment_utf16: segment@.len_utf16,
                    replaced,
                    mark,
                };
                match r {
                    Some(p) => coherent(m) && p@ == m,
                    None => !coherent(m),
                }
            }),
    {
        proof {
            use_type_invariant(&source);
            use_type_invariant(&segment);
        }
        let source_lines = source.line_count();
        let segment_lines_total = segment.line_count();
        let segment_utf16 = segment.len_utf16();
        let source_utf16 = source.len_utf16();
        if !(first_line < after_source_line && after_source_line <= source_lines) {
            return None;
        }
        if segment_lines > segment_lines_total {
            return None;
        }
        if first_line > usize::MAX - segment_lines_total || first_line + segment_lines_total > usize::MAX
            - source_lines {
            return None;
        }
        if source_end_utf16 > source_utf16 {
            return None;
        }
        if after_source_line < source_lines && source.lines[after_source_line].start_utf16 != source_end_utf16 {
            return None;
        }
        let tail = source_utf16 - source_end_utf16;
        if base_utf16 > usize::MAX - segment_utf16 || base_utf16 + segment_utf16 > usize::MAX - tail {
            return None;
        }
        if replaced.start > replaced.end || mark.start > mark.end || mark.start != replaced.start {
            return None;
        }
        Some(
            Projection {
                source,
                segment,
                first_line,
                after_source_line,
                segment_lines,
                base_utf16,
                source_end_utf16,
                segment_utf16,
                replaced,
                mark,
            },
        )
    }

    /// The display range of the preedit.
    pub fn mark(&self) -> (r: Range<usize>)
        ensures
            r == self@.mark,
            coherent(self@),
    {
        proof {
            use_type_invariant(self);
        }
        self.mark.start..self.mark.end
    }

    /// Number of display lines.
    pub fn line_count(&self) -> (n: usize)
        ensures
            n == line_count_spec(self@),
    {
        proof {
            use_type_invariant(self);
        }
        self.first_line + self.segment_lines + self.source.line_count() - self.after_source_line
    }

    /// Display line `display`.
    pub fn line(&self, display: usize) -> (r: Result<Line<'_>, ProjectionError>)
        ensures
            match r {
                Ok(l) => line_spec(self@, display) == Ok::<LineModel, ProjectionError>(
                    LineModel {
                        in_segment: l.source is None,
                        local: l.local,
                        display: l.display,
                        base_utf16: l.base_utf16,
                        source: l.source,
                    },
                ) && l.snapshot@ == (if l.source is None {
                    self@.segment
                } else {
                    self@.source
                }),
                Err(e) => line_spec(self@, display) == Err::<LineModel, ProjectionError>(e),
            },
    {
        proof {
            use_type_invariant(self);
            use_type_invariant(&self.source);
            use_type_invariant(&self.segment);
        }
        let after = self.first_line + self.segment_lines;
        let in_segment: bool;
        let local: usize;
        let source: Option<usize>;
        if display < self.first_line {
            in_segment = false;
            local = display;
            source = Some(display);
        } else if display < after {
            in_segment = true;
            local = display - self.first_line;
            source = None;
        } else {
            if self.after_source_line > usize::MAX - (display - after) {
                return Err(ProjectionError::OutOfRange);
            }
            in_segment = false;
            local = self.after_source_line + (display - after);
            source = Some(local);
        }
        let snapshot = if in_segment {
            &self.segment
        } else {
            &self.source
        };
        if local >= snapshot.line_count() {
            return Err(ProjectionError::OutOfRange);
        }
        let start = snapshot.lines[local].start_utf16;
        let base_utf16 = if in_segment {
            start + self.base_utf16
        } else if display >= after {
            proof {
                if local > self.after_source_line {
                    assert(self@.source.lines[self.after_source_line as int].start_utf16
                        < self@.source.lines[local as int].start_utf16);
                }
            }
            start - self.source_end_utf16 + self.base_utf16 + self.segment_utf16
        } else {
            start
        };
        Ok(Line { snapshot, local, display, base_utf16, source })
    }

    fn display_line_at_utf16(&self, index: usize) -> (r: Result<usize, ProjectionError>)
        ensures
            r == display_line_of_utf16(self@, index),
    {
        proof {
            use_type_invariant(self);
        }
        if index < self.base_utf16 {
            Ok(self.source.line_of_utf16(index)?)
        } else if index < self.base_utf16 + self.segment_utf16 || self.after_source_line
            == self.source.line_count() {
            self.segment_display_line(index)
        } else {
            self.trailing_display_line(index)
        }
    }

    fn segment_display_line(&self, index: usize) -> (r: Result<usize, ProjectionError>)
        requires
            self@.base_utf16 <= index,
            index < self@.base_utf16 + self@.segment_utf16 || self@.after_source_line
                == self@.source.lines.len(),
        ensures
            r == display_line_of_utf16(self@, index),
    {
        proof {
            use_type_invariant(self);
        }
        let k = self.segment.line_of_utf16(index - self.base_utf16)?;
        proof {
            lemma_line_of(self@.segment, (index - self@.base_utf16) as usize);
        }
        Ok(self.first_line + k)
    }

    #[verifier::spinoff_prover]
    fn trailing_display_line(&self, index: usize) -> (r: Result<usize, ProjectionError>)
        requires
            self@.base_utf16 + self@.segment_utf16 <= index,
            self@.after_source_line != self@.source.lines.len(),
        ensures
            r == display_line_of_utf16(self@, index),
    {
        proof {
            use_type_invariant(self);
        }
        let offset = index - (self.base_utf16 + self.segment_utf16);
        if offset > usize::MAX - self.source_end_utf16 {
            return Err(ProjectionError::OutOfRange);
        }
        let source_index = offset + self.source_end_utf16;
        let line = self.source.line_of_utf16(source_index)?;
        proof {
            lemma_line_of(self@.source, source_index);
            let a = self@.after_source_line as int;
            if (line as int) < a {
                if line + 1 < a {
                    assert(self@.source.lines[line + 1].start_utf16 < self@.source.lines[a].start_utf16);
                }
            }
        }
        Ok(self.first_line + self.segment_lines + line - self.after_source_line)
    }

    /// The display line that holds display UTF-16 offset `index`.
    pub fn line_at_utf16(&self, index: usize) -> (r: Result<Line<'_>, ProjectionError>)
        ensures
            match r {
                Ok(l) => line_at_utf16_spec(self@, index) == Ok::<LineModel, ProjectionError>(
                    LineModel {
                        in_segment: l.source is None,
                        local: l.local,
                        display: l.display,
                        base_utf16: l.base_utf16,
                        source: l.source,
                    },
                ) && l.snapshot@ == (if l.source is None {
                    self@.segment
                } else {
                    self@.source
                }),
                Err(e) => line_at_utf16_spec(self@, index) == Err::<LineModel, ProjectionError>(e),
            },
    {
        proof {
            use_type_invariant(self);
            use_type_invariant(&self.source);
            use_type_invariant(&self.segment);
        }
        let display = self.display_line_at_utf16(index)?;
        self.line(display)
    }

    /// The display offset of source offset `index`, when it is shown.
    pub fn source_to_display(&self, index: usize, downstream: bool) -> (r: Option<usize>)
        ensures
            r == source_to_display_spec(self@, index, downstream),
            coherent(self@),
    {
        proof {
            use_type_invariant(self);
        }
        if downstream && self.replaced.start == self.replaced.end && index == self.replaced.start {
            return Some(self.mark.end);
        }
        if index <= self.replaced.start {
            Some(index)
        } else if index < self.replaced.end {
            None
        } else {
            let offset = index - self.replaced.end;
            if offset > usize::MAX - self.mark.end {
                None
            } else {
                Some(offset + self.mark.end)
            }
        }
    }

    /// The source offset of display offset `index`.
    pub fn display_to_source(&self, index: usize) -> (r: Option<usize>)
        ensures
            r == display_to_source_spec(self@, index),
            coherent(self@),
    {
        proof {
            use_type_invariant(self);
        }
        if index <= self.mark.start {
            Some(index)
        } else if index < self.mark.end {
            Some(self.replaced.start)
        } else {
            let offset = index - self.mark.end;
            if offset > usize::MAX - self.replaced.end {
                None
            } else {
                Some(offset + self.replaced.end)
            }
        }
    }
}

/// Outside the replaced span, mapping a source offset to the display and
/// back returns it; the end of a non-empty replaced span under an empty
/// mark collapses onto its start.
pub proof fn law_source_offsets_outside_replacement_round_trip(m: ProjectionModel, index: usize)
    requires
        coherent(m),
        index <= m.replaced.start || m.replaced.end <= index,
        !(m.mark.start == m.mark.end && m.replaced.start < m.replaced.end && index == m.replaced.end),
        source_to_display_spec(m, index, false) is Some,
    ensures
        display_to_source_spec(m, source_to_display_spec(m, index, false)->0) == Some(index),
{
}

/// Mapping source offsets to the display keeps their order.
pub proof fn law_source_to_display_keeps_order(m: ProjectionModel, i: usize, j: usize)
    requires
        coherent(m),
        i <= j,
        source_to_display_spec(m, i, false) is Some,
        source_to_display_spec(m, j, false) is Some,
    ensures
        source_to_display_spec(m, i, false)->0 <= source_to_display_spec(m, j, false)->0,
{
}

/// Only an empty replaced span moves a downstream caret: there it goes
/// to the end of the mark; elsewhere downstream and upstream agree. A
/// source offset has no display offset exactly inside the replaced span or
/// when shifting it past the mark overflows.
pub proof fn law_downstream_moves_only_at_an_empty_replacement(m: ProjectionModel, index: usize)
    requires
        coherent(m),
    ensures
        m.replaced.start == m.replaced.end && index == m.replaced.start ==> source_to_display_spec(m, index, true)
            == Some(m.mark.end),
        !(m.replaced.start == m.replaced.end && index == m.replaced.start) ==> source_to_display_spec(
            m,
            index,
            true,
        ) == source_to_display_spec(m, index, false),
        (source_to_display_spec(m, index, false) is None) <==> (m.replaced.start < index < m.replaced.end
            || (m.replaced.end <= index && index - m.replaced.end + m.mark.end > usize::MAX)),
{
}

} // verus!
