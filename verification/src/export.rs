use vstd::prelude::*;

use crate::domain::{
    BatchExportItemResult, BatchExportResult, ExportResult, NamingRule, OutputRules,
};
use crate::text::{
    chars_of, path_extension, path_extension_spec, path_file_stem, path_file_stem_spec, path_join,
    path_join_spec, string_of, trim, trim_spec,
};

verus! {

/// The decimal digit character for `d` (`0` to `9`).
pub open spec fn digit_char(d: int) -> char {
    (48 + d) as char
}

/// The decimal representation of `n`, without leading zeros.
pub open spec fn decimal(n: nat) -> Seq<char>
    decreases n,
{
    if n < 10 {
        seq![digit_char(n as int)]
    } else {
        decimal(n / 10).push(digit_char((n % 10) as int))
    }
}

/// The decimal representation of `n`, padded with zeros to at least three
/// characters.
pub open spec fn decimal3(n: nat) -> Seq<char> {
    let d = decimal(n);
    if d.len() < 3 {
        Seq::new((3 - d.len()) as nat, |i: int| '0') + d
    } else {
        d
    }
}

proof fn lemma_decimal_len(n: nat)
    ensures
        decimal(n).len() >= 1,
        n < 10 ==> decimal(n).len() == 1,
        10 <= n < 100 ==> decimal(n).len() == 2,
        n >= 100 ==> decimal(n).len() >= 3,
    decreases n,
{
    if n >= 10 {
        lemma_decimal_len(n / 10);
    }
}

/// The decimal characters of `n`.
pub fn decimal_chars(n: usize) -> (res: Vec<char>)
    ensures
        res@ == decimal(n as nat),
    decreases n,
{
    if n < 10 {
        let v: Vec<char> = vec![((n as u8) + 48) as char];
        assert(v@ =~= decimal(n as nat));
        v
    } else {
        let mut v = decimal_chars(n / 10);
        v.push((((n % 10) as u8) + 48) as char);
        v
    }
}

/// The decimal text of `n`.
pub fn format_decimal(n: usize) -> (res: String)
    ensures
        res@ == decimal(n as nat),
{
    let v = decimal_chars(n);
    string_of(v.as_slice())
}

/// The decimal text of `n`, zero-padded to three characters.
pub fn format_index(n: usize) -> (res: String)
    ensures
        res@ == decimal3(n as nat),
{
    let digits = decimal_chars(n);
    proof {
        lemma_decimal_len(n as nat);
    }
    let mut out: Vec<char> = Vec::new();
    let pad_len: usize = if digits.len() < 3 { 3 - digits.len() } else { 0 };
    let mut k: usize = 0;
    while k < pad_len
        invariant
            k <= pad_len,
            out@ == Seq::new(k as nat, |i: int| '0'),
        decreases pad_len - k,
    {
        out.push('0');
        k = k + 1;
        assert(out@ =~= Seq::new(k as nat, |i: int| '0'));
    }
    let mut i: usize = 0;
    let ghost pad = out@;
    while i < digits.len()
        invariant
            i <= digits.len(),
            out@ == pad + digits@.take(i as int),
        decreases digits.len() - i,
    {
        out.push(digits[i]);
        i = i + 1;
        assert(out@ =~= pad + digits@.take(i as int));
    }
    assert(digits@.take(digits@.len() as int) =~= digits@);
    proof {
        if digits@.len() >= 3 {
            assert(pad =~= Seq::<char>::empty());
            assert(out@ =~= digits@);
        }
    }
    string_of(out.as_slice())
}

/// Whether `c` is kept in a file-name prefix: ASCII letters and digits, `-`,
/// `_` and `@`.
pub open spec fn is_prefix_char(c: char) -> bool {
    ('a' <= c && c <= 'z') || ('A' <= c && c <= 'Z') || ('0' <= c && c <= '9') || c == '-' || c
        == '_' || c == '@'
}

/// A prefix character, or `_` in place of one that is not kept.
pub open spec fn sanitize_char(c: char) -> char {
    if is_prefix_char(c) {
        c
    } else {
        '_'
    }
}

/// The prefix used in file names for a user-given prefix: `watermark` when it
/// is blank, else the trimmed prefix with every other character replaced by
/// `_`.
pub open spec fn sanitized_prefix(prefix: Seq<char>) -> Seq<char> {
    let t = trim_spec(prefix);
    if t.len() == 0 {
        "watermark"@
    } else {
        t.map_values(|c: char| sanitize_char(c))
    }
}

/// Makes a user-given prefix safe for file names.
pub fn sanitize_prefix(prefix: &str) -> (res: String)
    ensures
        res@ == sanitized_prefix(prefix@),
{
    let trimmed = trim(prefix);
    if trimmed.is_empty() {
        return String::from_str("watermark");
    }
    let chars = chars_of(trimmed);
    let mut out: Vec<char> = Vec::new();
    let mut i: usize = 0;
    while i < chars.len()
        invariant
            i <= chars.len(),
            chars@ == trimmed@,
            out@ == trimmed@.take(i as int).map_values(|c: char| sanitize_char(c)),
        decreases chars.len() - i,
    {
        let c = chars[i];
        let keep = ('a' <= c && c <= 'z') || ('A' <= c && c <= 'Z') || ('0' <= c && c <= '9') || c
            == '-' || c == '_' || c == '@';
        out.push(if keep { c } else { '_' });
        i = i + 1;
        assert(out@ =~= trimmed@.take(i as int).map_values(|c: char| sanitize_char(c)));
    }
    assert(trimmed@.take(trimmed@.len() as int) =~= trimmed@);
    string_of(out.as_slice())
}

/// The file name an exported image gets under a naming rule, before any
/// collision suffix.
pub open spec fn base_name_spec(
    stem: Seq<char>,
    extension: Seq<char>,
    rule: NamingRule,
    custom_prefix: Seq<char>,
    index: nat,
) -> Seq<char> {
    match rule {
        NamingRule::NameWatermark => stem + "_watermark."@ + extension,
        NamingRule::WatermarkName => "watermark_"@ + stem + "."@ + extension,
        NamingRule::WatermarkIndex => "watermark_"@ + decimal3(index) + "."@ + extension,
        NamingRule::CustomPrefixIndex => sanitized_prefix(custom_prefix) + "_"@ + decimal3(index)
            + "."@ + extension,
    }
}

/// The file name for an exported image from its stem and extension.
pub fn output_base_name(stem: &str, extension: &str, output_rules: &OutputRules, index: usize) -> (res:
    String)
    ensures
        res@ == base_name_spec(
            stem@,
            extension@,
            output_rules.naming_rule,
            output_rules.custom_prefix@,
            index as nat,
        ),
{
    let index_value = format_index(index);
    let prefix = sanitize_prefix(output_rules.custom_prefix.as_str());
    let mut name = String::new();
    match output_rules.naming_rule {
        NamingRule::NameWatermark => {
            name.append(stem);
            name.append("_watermark.");
            name.append(extension);
        },
        NamingRule::WatermarkName => {
            name.append("watermark_");
            name.append(stem);
            name.append(".");
            name.append(extension);
        },
        NamingRule::WatermarkIndex => {
            name.append("watermark_");
            name.append(index_value.as_str());
            name.append(".");
            name.append(extension);
        },
        NamingRule::CustomPrefixIndex => {
            name.append(prefix.as_str());
            name.append("_");
            name.append(index_value.as_str());
            name.append(".");
            name.append(extension);
        },
    }
    name
}

/// A path's file stem, or `image` when it has none.
pub open spec fn stem_or_default(path: Seq<char>) -> Seq<char> {
    match path_file_stem_spec(path) {
        Some(s) => s,
        None => "image"@,
    }
}

/// A path's extension (letter case kept), or `png` when it has none.
pub open spec fn extension_or_default(path: Seq<char>) -> Seq<char> {
    match path_extension_spec(path) {
        Some(e) => e,
        None => "png"@,
    }
}

/// `filename` with `-counter` inserted before its extension.
pub open spec fn collision_name_spec(filename: Seq<char>, counter: nat) -> Seq<char> {
    stem_or_default(filename) + "-"@ + decimal(counter) + "."@ + extension_or_default(filename)
}

fn stem_or_image(path: &str) -> (res: String)
    ensures
        res@ == stem_or_default(path@),
{
    match path_file_stem(path) {
        Some(s) => s,
        None => String::from_str("image"),
    }
}

fn extension_or_png(path: &str) -> (res: String)
    ensures
        res@ == extension_or_default(path@),
{
    match path_extension(path) {
        Some(e) => e,
        None => String::from_str("png"),
    }
}

/// The file name tried after `filename` was taken: `stem-counter.extension`.
pub fn append_collision_suffix(filename: &str, counter: usize) -> (res: String)
    ensures
        res@ == collision_name_spec(filename@, counter as nat),
{
    let stem = stem_or_image(filename);
    let extension = extension_or_png(filename);
    let number = format_decimal(counter);
    let mut name = String::new();
    name.append(stem.as_str());
    name.append("-");
    name.append(number.as_str());
    name.append(".");
    name.append(extension.as_str());
    name
}

/// The file name an exported copy of `source_path` gets, before any collision
/// suffix.
pub open spec fn output_file_name_spec(
    source_path: Seq<char>,
    rule: NamingRule,
    custom_prefix: Seq<char>,
    index: nat,
) -> Seq<char> {
    base_name_spec(
        stem_or_default(source_path),
        extension_or_default(source_path),
        rule,
        custom_prefix,
        index,
    )
}

/// The file name an exported copy of `source_path` gets, before any collision
/// suffix.
pub fn output_file_name(source_path: &str, output_rules: &OutputRules, index: usize) -> (res:
    String)
    ensures
        res@ == output_file_name_spec(
            source_path@,
            output_rules.naming_rule,
            output_rules.custom_prefix@,
            index as nat,
        ),
{
    let stem = stem_or_image(source_path);
    let extension = extension_or_png(source_path);
    output_base_name(stem.as_str(), extension.as_str(), output_rules, index)
}

/// The file name tried at the given attempt: the base name first, then the
/// base name with `-2`, `-3`, and so on.
pub open spec fn candidate_name_spec(base_name: Seq<char>, attempt: nat) -> Seq<char> {
    if attempt == 0 {
        base_name
    } else {
        collision_name_spec(base_name, attempt + 1)
    }
}

/// The file name tried at the given attempt (counting from zero) when the
/// earlier ones were taken.
pub fn candidate_file_name(base_name: &str, attempt: usize) -> (res: String)
    requires
        attempt < usize::MAX,
    ensures
        res@ == candidate_name_spec(base_name@, attempt as nat),
{
    if attempt == 0 {
        String::from_str(base_name)
    } else {
        append_collision_suffix(base_name, attempt + 1)
    }
}

/// The folder exports go to: the chosen folder when it is not blank, else a
/// `Watermark export` folder beside the source; `None` when neither is known.
pub open spec fn output_folder_spec(chosen: Option<Seq<char>>, source_parent: Option<Seq<char>>) -> Option<
    Seq<char>,
> {
    match chosen {
        Some(f) if trim_spec(f).len() > 0 => Some(f),
        _ => match source_parent {
            Some(p) => Some(path_join_spec(p, "Watermark export"@)),
            None => None,
        },
    }
}

/// The folder exports go to, given the source's parent folder (if it has one).
pub fn output_folder(output_rules: &OutputRules, source_parent: Option<&str>) -> (res: Result<
    String,
    String,
>)
    ensures
        res matches Ok(f) ==> output_folder_spec(
            match output_rules.output_folder {
                Some(f) => Some(f@),
                None => None,
            },
            match source_parent {
                Some(p) => Some(p@),
                None => None,
            },
        ) == Some(f@),
        res is Err <==> output_folder_spec(
            match output_rules.output_folder {
                Some(f) => Some(f@),
                None => None,
            },
            match source_parent {
                Some(p) => Some(p@),
                None => None,
            },
        ) is None,
        res matches Err(e) ==> e@ == "Could not determine source folder"@,
{
    if let Some(folder) = &output_rules.output_folder {
        if !trim(folder.as_str()).is_empty() {
            return Ok(folder.clone());
        }
    }
    match source_parent {
        Some(parent) => Ok(path_join(parent, "Watermark export")),
        None => Err(String::from_str("Could not determine source folder")),
    }
}

/// Checks what an export needs before any work: a readable source file and
/// watermark text that is not blank.
pub fn validate_export(source_is_file: bool, watermark_text: &str) -> (res: Result<(), String>)
    ensures
        res is Ok <==> source_is_file && trim_spec(watermark_text@).len() > 0,
        !source_is_file ==> (res matches Err(e) && e@
            == "Selected source image is not a readable file"@),
        source_is_file && res is Err ==> (res matches Err(e) && e@
            == "Watermark text is required before export"@),
{
    if !source_is_file {
        return Err(String::from_str("Selected source image is not a readable file"));
    }
    if trim(watermark_text).is_empty() {
        return Err(String::from_str("Watermark text is required before export"));
    }
    Ok(())
}

/// Whether watermark text would draw anything: it is not blank.
pub fn is_renderable_text(watermark_text: &str) -> (res: bool)
    ensures
        res == (trim_spec(watermark_text@).len() > 0),
{
    !trim(watermark_text).is_empty()
}

/// Checks a batch export request before any work: at least one source and
/// watermark text that is not blank.
pub fn validate_batch(source_count: usize, watermark_text: &str) -> (res: Result<(), String>)
    ensures
        res is Ok <==> source_count > 0 && trim_spec(watermark_text@).len() > 0,
        source_count == 0 ==> (res matches Err(e) && e@ == "Import images before batch export"@),
        source_count > 0 && res is Err ==> (res matches Err(e) && e@
            == "Watermark text is required before export"@),
{
    if source_count == 0 {
        return Err(String::from_str("Import images before batch export"));
    }
    if !is_renderable_text(watermark_text) {
        return Err(String::from_str("Watermark text is required before export"));
    }
    Ok(())
}


/// What one image of a batch export reports, from the export's outcome.
pub open spec fn item_matches(
    item: BatchExportItemResult,
    source_path: Seq<char>,
    outcome: Result<ExportResult, String>,
) -> bool {
    match outcome {
        Ok(r) => {
            &&& item.source_path == r.source_path
            &&& item.output_path == Some(r.output_path)
            &&& item.width == Some(r.width)
            &&& item.height == Some(r.height)
            &&& item.success
            &&& item.error is None
        },
        Err(e) => {
            &&& item.source_path@ == source_path
            &&& item.output_path is None
            &&& item.width is None
            &&& item.height is None
            &&& !item.success
            &&& item.error == Some(e)
        },
    }
}

/// What a batch export reports for an image it did not reach because it was
/// cancelled.
pub open spec fn is_cancelled_item(item: BatchExportItemResult, source_path: Seq<char>) -> bool {
    &&& item.source_path@ == source_path
    &&& item.output_path is None
    &&& item.width is None
    &&& item.height is None
    &&& !item.success
    &&& item.error matches Some(e) && e@ == "Export cancelled"@
}

/// The text of an optional string.
pub open spec fn opt_view(s: Option<String>) -> Option<Seq<char>> {
    match s {
        Some(t) => Some(t@),
        None => None,
    }
}

/// Whether two reports say the same thing.
pub open spec fn same_report(a: BatchExportItemResult, b: BatchExportItemResult) -> bool {
    &&& a.source_path@ == b.source_path@
    &&& opt_view(a.output_path) == opt_view(b.output_path)
    &&& a.width == b.width
    &&& a.height == b.height
    &&& a.success == b.success
    &&& opt_view(a.error) == opt_view(b.error)
}

/// The report for one image of a batch export.
pub fn batch_item_result(source_path: &str, outcome: Result<ExportResult, String>) -> (res:
    BatchExportItemResult)
    ensures
        item_matches(res, source_path@, outcome),
{
    match outcome {
        Ok(result) => BatchExportItemResult {
            source_path: result.source_path,
            output_path: Some(result.output_path),
            width: Some(result.width),
            height: Some(result.height),
            success: true,
            error: None,
        },
        Err(error) => BatchExportItemResult {
            source_path: String::from_str(source_path),
            output_path: None,
            width: None,
            height: None,
            success: false,
            error: Some(error),
        },
    }
}

/// The report for an image a cancelled batch export did not reach.
pub fn cancelled_item_result(source_path: &str) -> (res: BatchExportItemResult)
    ensures
        is_cancelled_item(res, source_path@),
{
    BatchExportItemResult {
        source_path: String::from_str(source_path),
        output_path: None,
        width: None,
        height: None,
        success: false,
        error: Some(String::from_str("Export cancelled")),
    }
}

/// How many reports are successes.
pub open spec fn count_successes(items: Seq<BatchExportItemResult>) -> nat
    decreases items.len(),
{
    if items.len() == 0 {
        0
    } else {
        count_successes(items.drop_last()) + if items.last().success {
            1nat
        } else {
            0nat
        }
    }
}

proof fn lemma_count_successes_bound(items: Seq<BatchExportItemResult>)
    ensures
        count_successes(items) <= items.len(),
    decreases items.len(),
{
    if items.len() > 0 {
        lemma_count_successes_bound(items.drop_last());
    }
}

/// Law: the success count of reports is additive over concatenation, a single
/// report counts one exactly when it succeeded, reports that all succeeded
/// count in full and reports that all failed count zero.
pub proof fn lemma_count_successes_laws(a: Seq<BatchExportItemResult>, b: Seq<
    BatchExportItemResult,
>, x: BatchExportItemResult)
    ensures
        count_successes(a + b) == count_successes(a) + count_successes(b),
        count_successes(seq![x]) == (if x.success {
            1int
        } else {
            0int
        }),
        count_successes(a) <= a.len(),
        (forall|i: int| 0 <= i < a.len() ==> (#[trigger] a[i]).success) ==> count_successes(a)
            == a.len(),
        (forall|i: int| 0 <= i < a.len() ==> !(#[trigger] a[i]).success) ==> count_successes(a)
            == 0,
{
    lemma_count_successes_concat(a, b);
    assert(seq![x].drop_last() =~= Seq::<BatchExportItemResult>::empty());
    assert(seq![x].last() == x);
    assert(count_successes(Seq::<BatchExportItemResult>::empty()) == 0);
    lemma_count_successes_bound(a);
    lemma_count_successes_uniform(a);
}

proof fn lemma_count_successes_concat(a: Seq<BatchExportItemResult>, b: Seq<BatchExportItemResult>)
    ensures
        count_successes(a + b) == count_successes(a) + count_successes(b),
    decreases b.len(),
{
    if b.len() == 0 {
        assert(a + b =~= a);
    } else {
        assert((a + b).drop_last() =~= a + b.drop_last());
        assert((a + b).last() == b.last());
        lemma_count_successes_concat(a, b.drop_last());
    }
}

proof fn lemma_count_successes_uniform(a: Seq<BatchExportItemResult>)
    ensures
        (forall|i: int| 0 <= i < a.len() ==> (#[trigger] a[i]).success) ==> count_successes(a)
            == a.len(),
        (forall|i: int| 0 <= i < a.len() ==> !(#[trigger] a[i]).success) ==> count_successes(a)
            == 0,
    decreases a.len(),
{
    if a.len() > 0 {
        lemma_count_successes_uniform(a.drop_last());
        assert forall|i: int| 0 <= i < a.drop_last().len() implies a.drop_last()[i] == a[i] by {}
        assert(a.last() == a[a.len() - 1]);
    }
}

/// A batch export in progress: the sources and the reports so far, one per
/// source in order.
pub struct BatchRun {
    source_paths: Vec<String>,
    results: Vec<BatchExportItemResult>,
}

impl BatchRun {
    #[verifier::type_invariant]
    spec fn well_formed(self) -> bool {
        self.results@.len() <= self.source_paths@.len()
    }

    /// The sources of the batch.
    pub closed spec fn sources(self) -> Seq<String> {
        self.source_paths@
    }

    /// The reports recorded so far.
    pub closed spec fn reports(self) -> Seq<BatchExportItemResult> {
        self.results@
    }

    /// Starts a batch over the given sources.
    pub fn new(source_paths: Vec<String>) -> (res: Self)
        ensures
            res.sources() == source_paths@,
            res.reports() == Seq::<BatchExportItemResult>::empty(),
    {
        BatchRun { source_paths, results: Vec::new() }
    }

    /// The number of sources.
    pub fn total(&self) -> (res: usize)
        ensures
            res == self.sources().len(),
    {
        self.source_paths.len()
    }

    /// The number of reports recorded so far.
    pub fn recorded(&self) -> (res: usize)
        ensures
            res == self.reports().len(),
    {
        self.results.len()
    }

    /// The one-based position of the next source in the batch.
    pub fn next_index(&self) -> (res: usize)
        requires
            self.reports().len() < self.sources().len(),
        ensures
            res == self.reports().len() + 1,
    {
        let total = self.source_paths.len();
        let done = self.results.len();
        assert(done < total);
        done + 1
    }

    /// The source to export next, or `None` when every source has a report.
    pub fn next_source(&self) -> (res: Option<&String>)
        ensures
            self.reports().len() <= self.sources().len(),
            self.reports().len() < self.sources().len() ==> res == Some(
                &self.sources()[self.reports().len() as int],
            ),
            self.reports().len() == self.sources().len() ==> res is None,
    {
        proof {
            use_type_invariant(self);
        }
        if self.results.len() < self.source_paths.len() {
            Some(&self.source_paths[self.results.len()])
        } else {
            None
        }
    }

    /// Records the outcome of exporting the next source.
    pub fn record(&mut self, outcome: Result<ExportResult, String>) -> (res: BatchExportItemResult)
        requires
            old(self).reports().len() < old(self).sources().len(),
        ensures
            final(self).sources() == old(self).sources(),
            final(self).reports().len() == old(self).reports().len() + 1,
            final(self).reports().take(old(self).reports().len() as int) == old(self).reports(),
            item_matches(
                final(self).reports().last(),
                old(self).sources()[old(self).reports().len() as int]@,
                outcome,
            ),
            same_report(res, final(self).reports().last()),
    {
        proof {
            use_type_invariant(&*self);
        }
        let index = self.results.len();
        let item = batch_item_result(self.source_paths[index].as_str(), outcome);
        let copy = item.clone_report();
        let mut results: Vec<BatchExportItemResult> = Vec::new();
        std::mem::swap(&mut results, &mut self.results);
        results.push(item);
        assert(results@.take(index as int) =~= old(self).results@);
        self.results = results;
        copy
    }

    /// Ends the batch. When it was cancelled before every source had a report,
    /// each remaining source gets a cancelled report.
    pub fn finish(self, cancelled: bool) -> (res: BatchExportResult)
        ensures
            res.results@.take(self.reports().len() as int) == self.reports(),
            (cancelled || self.reports().len() == self.sources().len()) ==> res.results@.len()
                == self.sources().len(),
            !cancelled ==> res.results@ == self.reports(),
            forall|i: int|
                self.reports().len() <= i < res.results@.len() ==> is_cancelled_item(
                    #[trigger] res.results@[i],
                    self.sources()[i]@,
                ),
            res.completed == count_successes(res.results@),
            res.completed + res.failed == res.results@.len(),
    {
        proof {
            use_type_invariant(&self);
        }
        let BatchRun { source_paths, results } = self;
        let mut results = results;
        let ghost recorded = results@;
        let total = source_paths.len();
        if cancelled && results.len() < total {
            let mut i = results.len();
            while i < total
                invariant
                    recorded.len() <= i <= total,
                    total == source_paths@.len(),
                    results@.len() == i,
                    results@.take(recorded.len() as int) == recorded,
                    forall|j: int|
                        recorded.len() <= j < i ==> is_cancelled_item(
                            #[trigger] results@[j],
                            source_paths@[j]@,
                        ),
                decreases total - i,
            {
                results.push(cancelled_item_result(source_paths[i].as_str()));
                assert(results@.take(recorded.len() as int) =~= recorded);
                i = i + 1;
            }
        }
        let mut completed: usize = 0;
        let mut k: usize = 0;
        while k < results.len()
            invariant
                k <= results@.len(),
                completed == count_successes(results@.take(k as int)),
                completed <= k,
            decreases results.len() - k,
        {
            assert(results@.take(k + 1).drop_last() =~= results@.take(k as int));
            if results[k].success {
                completed = completed + 1;
            }
            k = k + 1;
        }
        assert(results@.take(results@.len() as int) =~= results@);
        proof {
            lemma_count_successes_bound(results@);
        }
        let failed = results.len() - completed;
        BatchExportResult { completed, failed, results }
    }
}

impl BatchExportItemResult {
    /// A copy of this report.
    pub fn clone_report(&self) -> (res: Self)
        ensures
            same_report(res, *self),
    {
        BatchExportItemResult {
            source_path: self.source_path.clone(),
            output_path: match &self.output_path {
                Some(p) => Some(p.clone()),
                None => None,
            },
            width: self.width,
            height: self.height,
            success: self.success,
            error: match &self.error {
                Some(e) => Some(e.clone()),
                None => None,
            },
        }
    }
}


proof fn lemma_digit_char_injective(d: int, e: int)
    requires
        0 <= d < 10,
        0 <= e < 10,
        digit_char(d) == digit_char(e),
    ensures
        d == e,
{
    assert(digit_char(d) as int == 48 + d);
    assert(digit_char(e) as int == 48 + e);
}

proof fn lemma_decimal_injective(a: nat, b: nat)
    requires
        decimal(a) == decimal(b),
    ensures
        a == b,
    decreases a,
{
    lemma_decimal_len(a);
    lemma_decimal_len(b);
    if a >= 10 && b >= 10 {
        assert(decimal(a).drop_last() =~= decimal(a / 10));
        assert(decimal(b).drop_last() =~= decimal(b / 10));
        lemma_decimal_injective(a / 10, b / 10);
        assert(decimal(a).last() == digit_char((a % 10) as int));
        assert(decimal(b).last() == digit_char((b % 10) as int));
        lemma_digit_char_injective((a % 10) as int, (b % 10) as int);
    } else if a < 10 && b < 10 {
        assert(decimal(a)[0] == digit_char(a as int));
        assert(decimal(b)[0] == digit_char(b as int));
        lemma_digit_char_injective(a as int, b as int);
    } else if a < 10 && b >= 10 {
        lemma_decimal_len(b / 10);
    } else if a >= 10 && b < 10 {
        lemma_decimal_len(a / 10);
    }
}

/// Law: the names tried after a collision never repeat: attempts `n` and `m`
/// (both after the first) give different file names.
pub proof fn lemma_collision_names_distinct(base_name: Seq<char>, n: nat, m: nat)
    requires
        1 <= n,
        1 <= m,
        n != m,
    ensures
        candidate_name_spec(base_name, n) != candidate_name_spec(base_name, m),
{
    let s = stem_or_default(base_name) + "-"@;
    let e = "."@ + extension_or_default(base_name);
    let dn = decimal(n + 1);
    let dm = decimal(m + 1);
    assert(candidate_name_spec(base_name, n) =~= s + dn + e);
    assert(candidate_name_spec(base_name, m) =~= s + dm + e);
    if s + dn + e == s + dm + e {
        if dn.len() == dm.len() {
            assert forall|i: int| 0 <= i < dn.len() implies dn[i] == dm[i] by {
                assert((s + dn + e)[s.len() + i] == dn[i]);
                assert((s + dm + e)[s.len() + i] == dm[i]);
            }
            assert(dn =~= dm);
            lemma_decimal_injective((n + 1) as nat, (m + 1) as nat);
        } else {
            assert((s + dn + e).len() != (s + dm + e).len());
        }
    }
}

/// Law: a sanitized prefix is never empty and holds only letters, digits,
/// `-`, `_` and `@`; a blank prefix gives `watermark`.
pub proof fn lemma_sanitized_prefix_chars(prefix: Seq<char>)
    ensures
        sanitized_prefix(prefix).len() > 0,
        trim_spec(prefix).len() == 0 ==> sanitized_prefix(prefix) == "watermark"@,
        forall|i: int|
            0 <= i < sanitized_prefix(prefix).len() ==> is_prefix_char(
                #[trigger] sanitized_prefix(prefix)[i],
            ),
{
    let t = trim_spec(prefix);
    if t.len() == 0 {
        reveal_strlit("watermark");
    }
}

/// Law: a prefix that is not blank keeps its trimmed length; each ASCII
/// letter, digit, `-`, `_` and `@` of the trimmed prefix stays in place and
/// every other character becomes `_`. So a trimmed prefix made only of those
/// characters is used as it is.
pub proof fn lemma_sanitized_prefix_keeps_allowed(prefix: Seq<char>)
    ensures
        ({
            let t = trim_spec(prefix);
            let s = sanitized_prefix(prefix);
            t.len() > 0 ==> {
                &&& s.len() == t.len()
                &&& forall|i: int|
                    0 <= i < t.len() ==> (if ('a' <= #[trigger] t[i] && t[i] <= 'z') || ('A' <= t[i]
                        && t[i] <= 'Z') || ('0' <= t[i] && t[i] <= '9') || t[i] == '-' || t[i]
                        == '_' || t[i] == '@' {
                        s[i] == t[i]
                    } else {
                        s[i] == '_'
                    })
                &&& (forall|i: int|
                    0 <= i < t.len() ==> ('a' <= #[trigger] t[i] && t[i] <= 'z') || ('A' <= t[i]
                        && t[i] <= 'Z') || ('0' <= t[i] && t[i] <= '9') || t[i] == '-' || t[i]
                        == '_' || t[i] == '@') ==> s == t
            }
        }),
{
    let t = trim_spec(prefix);
    let s = sanitized_prefix(prefix);
    if t.len() > 0 {
        if forall|i: int|
            0 <= i < t.len() ==> ('a' <= #[trigger] t[i] && t[i] <= 'z') || ('A' <= t[i] && t[i]
                <= 'Z') || ('0' <= t[i] && t[i] <= '9') || t[i] == '-' || t[i] == '_' || t[i]
                == '@' {
            assert(s =~= t);
        }
    }
}

/// Law: an index in a file name has at least three digits, zero-padded.
pub proof fn lemma_index_width(n: nat)
    ensures
        decimal3(n).len() >= 3,
        n < 1000 ==> decimal3(n).len() == 3,
{
    lemma_decimal_len(n);
    if n >= 100 && n < 1000 {
        lemma_decimal_len(n / 10);
        lemma_decimal_len(n / 100);
    }
}

} // verus!
