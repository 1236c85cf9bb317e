//! Evidence of an internal dogfood run: the identity of the capture, the
//! counters the editor owns, and the frame accounting the report derives.
use vstd::prelude::*;
use vstd::string::StringExecFns;

verus! {

/// Bound on the bytes of the written report.
pub const MAX_OUTPUT_BYTES: usize = 262144;

/// Budget of the language process's retained bytes.
pub const LANGUAGE_BUDGET_BYTES: usize = 16777216;

/// Budget of the foreground queue's bytes.
pub const FOREGROUND_QUEUE_BUDGET_BYTES: usize = 8388608;

/// Why a dogfood capture was refused.
#[derive(Clone, Copy, Debug, Eq, PartialEq)]
pub struct CaptureError(pub &'static str);

impl CaptureError {
    /// The description the error carries.
    pub fn message(&self) -> (m: String)
        ensures
            m@ == self.0@,
    {
        String::from_str(self.0)
    }
}

/// A lower-case ASCII letter, digit, `-` or `.`.
pub open spec fn slug_byte(b: u8) -> bool {
    (97 <= b <= 122) || (48 <= b <= 57) || b == 45 || b == 46
}

/// A non-empty slug of at most 128 bytes.
pub open spec fn valid_slug_spec(value: Seq<u8>) -> bool {
    0 < value.len() <= 128 && forall|i: int| 0 <= i < value.len() ==> slug_byte(#[trigger] value[i])
}

/// Whether `value` is a bounded slug.
pub fn valid_slug(value: &str) -> (r: bool)
    ensures
        r == valid_slug_spec(vstd::utf8::encode_utf8(value@)),
{
    let bytes = value.as_bytes();
    if bytes.len() == 0 || bytes.len() > 128 {
        return false;
    }
    let mut i: usize = 0;
    while i < bytes.len()
        invariant
            bytes@ == vstd::utf8::encode_utf8(value@),
            0 < bytes@.len() <= 128,
            i <= bytes@.len(),
            forall|j: int| 0 <= j < i ==> slug_byte(#[trigger] bytes@[j]),
        decreases bytes@.len() - i,
    {
        let b = bytes[i];
        if !((97 <= b && b <= 122) || (48 <= b && b <= 57) || b == 45 || b == 46) {
            assert(!slug_byte(bytes@[i as int]));
            return false;
        }
        i += 1;
    }
    true
}

/// A lower-case hexadecimal digit.
pub open spec fn sha_byte(b: u8) -> bool {
    (48 <= b <= 57) || (97 <= b <= 102)
}

/// A lower-case 40-digit Git SHA.
pub open spec fn valid_git_sha_spec(value: Seq<u8>) -> bool {
    value.len() == 40 && forall|i: int| 0 <= i < value.len() ==> sha_byte(#[trigger] value[i])
}

/// Whether `value` is a lower-case 40-digit Git SHA.
pub fn valid_git_sha(value: &str) -> (r: bool)
    ensures
        r == valid_git_sha_spec(vstd::utf8::encode_utf8(value@)),
{
    let bytes = value.as_bytes();
    if bytes.len() != 40 {
        return false;
    }
    let mut i: usize = 0;
    while i < bytes.len()
        invariant
            bytes@ == vstd::utf8::encode_utf8(value@),
            bytes@.len() == 40,
            i <= bytes@.len(),
            forall|j: int| 0 <= j < i ==> sha_byte(#[trigger] bytes@[j]),
        decreases bytes@.len() - i,
    {
        let b = bytes[i];
        if !((48 <= b && b <= 57) || (97 <= b && b <= 102)) {
            assert(!sha_byte(bytes@[i as int]));
            return false;
        }
        i += 1;
    }
    true
}

/// The separator a UTC timestamp has at byte `i`, if any.
pub open spec fn timestamp_separator(i: int) -> Option<u8> {
    if i == 4 || i == 7 {
        Some(45u8)
    } else if i == 10 {
        Some(84u8)
    } else if i == 13 || i == 16 {
        Some(58u8)
    } else if i == 19 {
        Some(90u8)
    } else {
        None
    }
}

/// A UTC timestamp shaped `YYYY-MM-DDTHH:MM:SSZ`.
pub open spec fn valid_timestamp_spec(value: Seq<u8>) -> bool {
    value.len() == 20 && forall|i: int|
        0 <= i < 20 ==> match timestamp_separator(i) {
            Some(s) => #[trigger] value[i] == s,
            None => 48 <= value[i] <= 57,
        }
}

/// Whether `value` is a UTC timestamp shaped `YYYY-MM-DDTHH:MM:SSZ`.
pub fn valid_timestamp(value: &str) -> (r: bool)
    ensures
        r == valid_timestamp_spec(vstd::utf8::encode_utf8(value@)),
{
    let bytes = value.as_bytes();
    if bytes.len() != 20 {
        return false;
    }
    let mut i: usize = 0;
    while i < 20
        invariant
            bytes@ == vstd::utf8::encode_utf8(value@),
            bytes@.len() == 20,
            i <= 20,
            forall|j: int|
                0 <= j < i ==> match timestamp_separator(j) {
                    Some(s) => #[trigger] bytes@[j] == s,
                    None => 48 <= bytes@[j] <= 57,
                },
        decreases 20 - i,
    {
        let b = bytes[i];
        let ok = if i == 4 || i == 7 {
            b == 45
        } else if i == 10 {
            b == 84
        } else if i == 13 || i == 16 {
            b == 58
        } else if i == 19 {
            b == 90
        } else {
            48 <= b && b <= 57
        };
        if !ok {
            assert(!(match timestamp_separator(i as int) {
                Some(s) => bytes@[i as int] == s,
                None => 48 <= bytes@[i as int] <= 57,
            }));
            return false;
        }
        i += 1;
    }
    true
}

/// The identity of a capture: the workload, the revision and the time it
/// was captured.
pub struct CaptureIdentity {
    pub workload_id: String,
    pub revision: String,
    pub captured_at_utc: String,
}

/// Whether the environment supplied the capture settings completely, not
/// at all, or only in part.
pub open spec fn supplied_outcome(supplied: Seq<bool>) -> Result<bool, CaptureError> {
    if forall|i: int| 0 <= i < supplied.len() ==> !supplied[i] {
        Ok(false)
    } else if exists|i: int| 0 <= i < supplied.len() && !supplied[i] {
        Err(CaptureError("dogfood diagnostic environment must be supplied completely"))
    } else {
        Ok(true)
    }
}

/// Decides from which capture settings are present whether a capture was
/// asked for: none means no capture, all means a capture, some is refused.
pub fn capture_requested(output: bool, workload: bool, revision: bool, captured_at: bool) -> (r: Result<
    bool,
    CaptureError,
>)
    ensures
        r == supplied_outcome(seq![output, workload, revision, captured_at]),
{
    let ghost s = seq![output, workload, revision, captured_at];
    if !output && !workload && !revision && !captured_at {
        assert forall|i: int| 0 <= i < s.len() implies !s[i] by {}
        return Ok(false);
    }
    if !output || !workload || !revision || !captured_at {
        proof {
            if !output {
                assert(!s[0]);
            } else if !workload {
                assert(!s[1]);
            } else if !revision {
                assert(!s[2]);
            } else {
                assert(!s[3]);
            }
        }
        return Err(CaptureError("dogfood diagnostic environment must be supplied completely"));
    }
    assert(!(forall|i: int| 0 <= i < s.len() ==> !s[i])) by {
        assert(s[0]);
    }
    Ok(true)
}

impl CaptureIdentity {
    /// The identity of a capture, refused unless the workload is a bounded
    /// slug, the revision a Git SHA and the time a UTC timestamp.
    pub fn new(workload_id: String, revision: String, captured_at_utc: String) -> (r: Result<CaptureIdentity, CaptureError>)
        ensures
            !valid_slug_spec(vstd::utf8::encode_utf8(workload_id@)) ==> r == Err::<CaptureIdentity, CaptureError>(
                CaptureError("dogfood workload id must be a bounded slug"),
            ),
            valid_slug_spec(vstd::utf8::encode_utf8(workload_id@)) && !valid_git_sha_spec(
                vstd::utf8::encode_utf8(revision@),
            ) ==> r == Err::<CaptureIdentity, CaptureError>(
                CaptureError("dogfood revision must be a lowercase 40-character Git SHA"),
            ),
            valid_slug_spec(vstd::utf8::encode_utf8(workload_id@)) && valid_git_sha_spec(
                vstd::utf8::encode_utf8(revision@),
            ) && !valid_timestamp_spec(vstd::utf8::encode_utf8(captured_at_utc@)) ==> r == Err::<
                CaptureIdentity,
                CaptureError,
            >(CaptureError("dogfood timestamp must be UTC YYYY-MM-DDTHH:MM:SSZ")),
            r matches Ok(identity) ==> identity.workload_id@ == workload_id@ && identity.revision@
                == revision@ && identity.captured_at_utc@ == captured_at_utc@,
            (valid_slug_spec(vstd::utf8::encode_utf8(workload_id@)) && valid_git_sha_spec(
                vstd::utf8::encode_utf8(revision@),
            ) && valid_timestamp_spec(vstd::utf8::encode_utf8(captured_at_utc@))) ==> r is Ok,
    {
        if !valid_slug(workload_id.as_str()) {
            return Err(CaptureError("dogfood workload id must be a bounded slug"));
        }
        if !valid_git_sha(revision.as_str()) {
            return Err(CaptureError("dogfood revision must be a lowercase 40-character Git SHA"));
        }
        if !valid_timestamp(captured_at_utc.as_str()) {
            return Err(CaptureError("dogfood timestamp must be UTC YYYY-MM-DDTHH:MM:SSZ"));
        }
        Ok(CaptureIdentity { workload_id, revision, captured_at_utc })
    }
}

/// Current, peak and budget bytes of one resource.
#[derive(Clone, Copy, Debug, Default, Eq, PartialEq, Structural)]
pub struct ResourceEvidence {
    pub current: usize,
    pub peak: usize,
    pub budget: usize,
}

/// The counters the language client reports.
#[derive(Clone, Copy, Debug, Default, Eq, PartialEq, Structural)]
pub struct LanguageCounters {
    pub completion_requests: u64,
    pub navigation_requests: u64,
    pub symbol_requests: u64,
    pub workspace_edit_requests: u64,
    pub stale_completions: u64,
    pub stale_navigation: u64,
    pub stale_symbols: u64,
    pub stale_workspace_edits: u64,
    pub stale_diagnostics: u64,
    pub restarts: u64,
    pub process_retained_bytes: usize,
    pub diagnostic_bytes: usize,
    pub completion_bytes: usize,
    pub hover_bytes: usize,
    pub location_bytes: usize,
    pub symbol_bytes: usize,
    pub workspace_edit_wire_bytes: usize,
    pub peak_diagnostic_bytes: usize,
    pub peak_completion_bytes: usize,
    pub peak_hover_bytes: usize,
    pub peak_location_bytes: usize,
    pub peak_symbol_bytes: usize,
    pub peak_workspace_edit_wire_bytes: usize,
}

/// What the editor reports of itself at the end of a run.
#[derive(Clone, Copy, Debug, Default, Eq, PartialEq, Structural)]
pub struct CaptureInputs {
    pub frame_builds: u64,
    pub shape_calls: u64,
    pub rasterize_calls: u64,
    pub syntax_hits: u64,
    pub syntax_misses: u64,
    pub syntax_omitted_lines: u64,
    pub accessibility_queries: u64,
    pub accessibility_actions: u64,
    pub accessibility_nodes: Option<usize>,
    pub language: LanguageCounters,
    pub layout: ResourceEvidence,
    pub syntax: ResourceEvidence,
    pub atlas_pixel_bytes: usize,
    pub atlas_metadata_bytes: usize,
    pub atlas_peak_bytes: usize,
    pub atlas_budget_bytes: usize,
}

/// The editor-owned evidence of a run.
#[derive(Clone, Copy, Debug, Default, Eq, PartialEq, Structural)]
pub struct StudioOwnedSnapshot {
    pub frame_builds: u64,
    pub shape_calls: u64,
    pub rasterize_calls: u64,
    pub syntax_hits: u64,
    pub syntax_misses: u64,
    pub syntax_omitted_lines: u64,
    pub accessibility_queries: u64,
    pub accessibility_actions: u64,
    pub accessibility_nodes: Option<usize>,
    pub language_requests: u64,
    pub stale_language_responses: u64,
    pub language_restarts: u64,
    pub layout: ResourceEvidence,
    pub syntax: ResourceEvidence,
    pub glyph_atlas_cpu: ResourceEvidence,
    pub language: ResourceEvidence,
}

/// Saturating sum of `u64` counters.
pub open spec fn sat64(a: int, b: int) -> int {
    if a + b > u64::MAX {
        u64::MAX as int
    } else {
        a + b
    }
}

/// Saturating sum of `usize` amounts.
pub open spec fn satu(a: int, b: int) -> int {
    if a + b > usize::MAX {
        usize::MAX as int
    } else {
        a + b
    }
}

fn add64(a: u64, b: u64) -> (r: u64)
    ensures
        r == sat64(a as int, b as int),
{
    if a > u64::MAX - b {
        u64::MAX
    } else {
        a + b
    }
}

fn addu(a: usize, b: usize) -> (r: usize)
    ensures
        r == satu(a as int, b as int),
{
    if a > usize::MAX - b {
        usize::MAX
    } else {
        a + b
    }
}

/// Language requests of every kind, saturating.
pub open spec fn language_requests(l: LanguageCounters) -> int {
    sat64(sat64(sat64(l.completion_requests as int, l.navigation_requests as int), l.symbol_requests as int), l.workspace_edit_requests as int)
}

/// Stale language responses of every kind, saturating.
pub open spec fn stale_responses(l: LanguageCounters) -> int {
    sat64(
        sat64(sat64(sat64(l.stale_completions as int, l.stale_navigation as int), l.stale_symbols as int), l.stale_workspace_edits as int),
        l.stale_diagnostics as int,
    )
}

/// Bytes the language client retains now, saturating.
pub open spec fn language_current(l: LanguageCounters) -> int {
    satu(
        satu(
            satu(
                satu(
                    satu(satu(l.process_retained_bytes as int, l.diagnostic_bytes as int), l.completion_bytes as int),
                    l.hover_bytes as int,
                ),
                l.location_bytes as int,
            ),
            l.symbol_bytes as int,
        ),
        l.workspace_edit_wire_bytes as int,
    )
}

/// Peak bytes the language client retained: the sum of its peaks, and at
/// least what it retains now.
pub open spec fn language_peak(l: LanguageCounters) -> int {
    let peaks = satu(
        satu(
            satu(
                satu(
                    satu(satu(l.process_retained_bytes as int, l.peak_diagnostic_bytes as int), l.peak_completion_bytes as int),
                    l.peak_hover_bytes as int,
                ),
                l.peak_location_bytes as int,
            ),
            l.peak_symbol_bytes as int,
        ),
        l.peak_workspace_edit_wire_bytes as int,
    );
    if peaks < language_current(l) {
        language_current(l)
    } else {
        peaks
    }
}

impl StudioOwnedSnapshot {
    /// The evidence of a run from what the editor reports of itself.
    pub fn capture(inputs: &CaptureInputs) -> (s: StudioOwnedSnapshot)
        ensures
            s.frame_builds == inputs.frame_builds,
            s.shape_calls == inputs.shape_calls,
            s.rasterize_calls == inputs.rasterize_calls,
            s.syntax_hits == inputs.syntax_hits,
            s.syntax_misses == inputs.syntax_misses,
            s.syntax_omitted_lines == inputs.syntax_omitted_lines,
            s.accessibility_queries == inputs.accessibility_queries,
            s.accessibility_actions == inputs.accessibility_actions,
            s.accessibility_nodes == inputs.accessibility_nodes,
            s.language_requests == language_requests(inputs.language),
            s.stale_language_responses == stale_responses(inputs.language),
            s.language_restarts == inputs.language.restarts,
            s.layout == inputs.layout,
            s.syntax == inputs.syntax,
            s.glyph_atlas_cpu == (ResourceEvidence {
                current: satu(inputs.atlas_pixel_bytes as int, inputs.atlas_metadata_bytes as int) as usize,
                peak: inputs.atlas_peak_bytes,
                budget: inputs.atlas_budget_bytes,
            }),
            s.language == (ResourceEvidence {
                current: language_current(inputs.language) as usize,
                peak: language_peak(inputs.language) as usize,
                budget: LANGUAGE_BUDGET_BYTES,
            }),
    {
        let l = inputs.language;
        let requests = add64(
            add64(add64(l.completion_requests, l.navigation_requests), l.symbol_requests),
            l.workspace_edit_requests,
        );
        let stale = add64(
            add64(add64(add64(l.stale_completions, l.stale_navigation), l.stale_symbols), l.stale_workspace_edits),
            l.stale_diagnostics,
        );
        let current = addu(
            addu(
                addu(addu(addu(addu(l.process_retained_bytes, l.diagnostic_bytes), l.completion_bytes), l.hover_bytes), l.location_bytes),
                l.symbol_bytes,
            ),
            l.workspace_edit_wire_bytes,
        );
        let peaks = addu(
            addu(
                addu(
                    addu(addu(addu(l.process_retained_bytes, l.peak_diagnostic_bytes), l.peak_completion_bytes), l.peak_hover_bytes),
                    l.peak_location_bytes,
                ),
                l.peak_symbol_bytes,
            ),
            l.peak_workspace_edit_wire_bytes,
        );
        let peak = if peaks < current {
            current
        } else {
            peaks
        };
        StudioOwnedSnapshot {
            frame_builds: inputs.frame_builds,
            shape_calls: inputs.shape_calls,
            rasterize_calls: inputs.rasterize_calls,
            syntax_hits: inputs.syntax_hits,
            syntax_misses: inputs.syntax_misses,
            syntax_omitted_lines: inputs.syntax_omitted_lines,
            accessibility_queries: inputs.accessibility_queries,
            accessibility_actions: inputs.accessibility_actions,
            accessibility_nodes: inputs.accessibility_nodes,
            language_requests: requests,
            stale_language_responses: stale,
            language_restarts: l.restarts,
            layout: inputs.layout,
            syntax: inputs.syntax,
            glyph_atlas_cpu: ResourceEvidence {
                current: addu(inputs.atlas_pixel_bytes, inputs.atlas_metadata_bytes),
                peak: inputs.atlas_peak_bytes,
                budget: inputs.atlas_budget_bytes,
            },
            language: ResourceEvidence { current, peak, budget: LANGUAGE_BUDGET_BYTES },
        }
    }
}

/// Frame accounting of a run.
#[derive(Clone, Copy, Debug, Default, Eq, PartialEq, Structural)]
pub struct FrameEvidence {
    pub requested: u64,
    pub submitted: u64,
    pub completed: u64,
    pub presented: u64,
    pub omitted: u64,
    pub idle_submissions: u64,
}

impl FrameEvidence {
    /// The frame accounting from the surface's counts and the editor's
    /// frame builds: frames still in flight are not completed, presented
    /// frames are among the completed ones, and submissions beyond the
    /// editor's builds are idle.
    pub fn from_counts(frame_builds: u64, submitted: u64, occupied_slots: u32, presented: u64) -> (e: FrameEvidence)
        ensures
            e.submitted == submitted,
            e.completed == (if submitted < occupied_slots {
                0
            } else {
                submitted - occupied_slots
            }),
            e.requested == (if frame_builds < submitted {
                submitted
            } else {
                frame_builds
            }),
            e.presented == (if presented < e.completed {
                presented
            } else {
                e.completed
            }),
            e.omitted == e.completed - e.presented,
            e.idle_submissions == (if submitted < frame_builds {
                0
            } else {
                submitted - frame_builds
            }),
    {
        let occupied = occupied_slots as u64;
        let completed = if submitted < occupied {
            0
        } else {
            submitted - occupied
        };
        let requested = if frame_builds < submitted {
            submitted
        } else {
            frame_builds
        };
        let shown = if presented < completed {
            presented
        } else {
            completed
        };
        FrameEvidence {
            requested,
            submitted,
            completed,
            presented: shown,
            omitted: completed - shown,
            idle_submissions: if submitted < frame_builds {
                0
            } else {
                submitted - frame_builds
            },
        }
    }
}

/// Evidence of the upload staging area, whose budget is not tracked: the
/// larger of its peak and current bytes stands for it.
pub fn upload_evidence(current: usize, peak: usize) -> (e: ResourceEvidence)
    ensures
        e == (ResourceEvidence {
            current,
            peak,
            budget: if peak < current {
                current
            } else {
                peak
            },
        }),
{
    ResourceEvidence {
        current,
        peak,
        budget: if peak < current {
            current
        } else {
            peak
        },
    }
}

/// Evidence a run never collects.
pub open spec fn omitted_evidence() -> Seq<Seq<char>> {
    seq![
        "accessibility-stale-actions"@,
        "background-queue-bytes"@,
        "font-cache"@,
        "fallback-cache"@,
        "glyph-atlas-gpu"@,
        "process-samples"@,
        "process-gpu-bytes"@,
        "stage-timings"@,
        "language-responses"@,
        "upload-staging-budget"@,
    ]
}

/// The evidence a report declares omitted: what no run collects, and the
/// accessibility tree when it was unavailable.
pub fn omission_inventory(owned: &StudioOwnedSnapshot) -> (names: Vec<&'static str>)
    ensures
        names@.map_values(|n: &'static str| n@) == if owned.accessibility_nodes is None {
            omitted_evidence().push("accessibility-tree"@)
        } else {
            omitted_evidence()
        },
{
    let mut names: Vec<&'static str> = vec![
        "accessibility-stale-actions",
        "background-queue-bytes",
        "font-cache",
        "fallback-cache",
        "glyph-atlas-gpu",
        "process-samples",
        "process-gpu-bytes",
        "stage-timings",
        "language-responses",
        "upload-staging-budget",
    ];
    if owned.accessibility_nodes.is_none() {
        names.push("accessibility-tree");
    }
    proof {
        let expected = if owned.accessibility_nodes is None {
            omitted_evidence().push("accessibility-tree"@)
        } else {
            omitted_evidence()
        };
        assert(names@.map_values(|n: &'static str| n@) =~= expected);
    }
    names
}

} // verus!
