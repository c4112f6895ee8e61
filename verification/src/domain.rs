use vstd::prelude::*;

verus! {

/// Where a watermark is placed relative to its anchor point.
#[derive(Debug, Clone, Copy, PartialEq, Eq, Structural)]
pub enum WatermarkAnchor {
    TopLeft,
    TopCenter,
    TopRight,
    CenterLeft,
    BottomCenter,
    BottomLeft,
    BottomRight,
    Center,
    CenterRight,
    Custom,
}

/// The outcome of exporting one image.
#[derive(Debug, Clone)]
pub struct ExportResult {
    pub source_path: String,
    pub output_path: String,
    pub width: u32,
    pub height: u32,
}

/// The outcome of a batch export.
#[derive(Debug, Clone)]
pub struct BatchExportResult {
    pub completed: usize,
    pub failed: usize,
    pub results: Vec<BatchExportItemResult>,
}

/// Progress reported after each image of a batch export.
#[derive(Debug, Clone)]
pub struct BatchExportProgressEvent {
    pub completed: usize,
    pub total: usize,
    pub current_path: Option<String>,
    pub latest: Option<BatchExportItemResult>,
}

/// The outcome of one image of a batch export.
#[derive(Debug, Clone)]
pub struct BatchExportItemResult {
    pub source_path: String,
    pub output_path: Option<String>,
    pub width: Option<u32>,
    pub height: Option<u32>,
    pub success: bool,
    pub error: Option<String>,
}

/// Where exported files go, how they are named and what happens to their
/// description metadata.
#[derive(Debug, Clone)]
pub struct OutputRules {
    pub output_folder: Option<String>,
    pub naming_rule: NamingRule,
    pub custom_prefix: String,
    pub metadata_policy: MetadataPolicy,
    pub description: String,
}

/// How an exported file is named.
#[derive(Debug, Clone, Copy, PartialEq, Eq, Structural)]
pub enum NamingRule {
    NameWatermark,
    WatermarkName,
    WatermarkIndex,
    CustomPrefixIndex,
}

/// What happens to the description metadata of an exported file.
#[derive(Debug, Clone, Copy, PartialEq, Eq, Structural)]
pub enum MetadataPolicy {
    ClearDescription,
    RewriteDescription,
    Preserve,
}

/// An imported image.
#[derive(Debug, Clone)]
pub struct ImageAsset {
    pub id: String,
    pub path: String,
    pub filename: String,
    pub extension: String,
    pub width: u32,
    pub height: u32,
    pub byte_size: u64,
    pub status: ImageStatus,
}

/// The state of an imported image.
#[derive(Debug, Clone, Copy, PartialEq, Eq, Structural)]
pub enum ImageStatus {
    Ready,
}

/// A path that an import passed over, and why.
#[derive(Debug, Clone)]
pub struct SkippedImport {
    pub path: String,
    pub reason: ImportSkipReason,
    pub message: String,
}

/// Why an import passed over a path.
#[derive(Debug, Clone, Copy, PartialEq, Eq, Structural)]
pub enum ImportSkipReason {
    UnsupportedFormat,
    CorruptImage,
    NotFile,
    NotDirectory,
    ReadError,
}

/// The images an import accepted and the paths it passed over.
#[derive(Debug, Clone)]
pub struct ImportResult {
    pub accepted: Vec<ImageAsset>,
    pub skipped: Vec<SkippedImport>,
}

/// The prefix used when none is given.
pub fn default_custom_prefix() -> (res: String)
    ensures
        res@ == "watermark"@,
{
    String::from_str("watermark")
}

/// The font family used when none is given.
pub fn default_font_family() -> (res: String)
    ensures
        res@ == "Arial"@,
{
    String::from_str("Arial")
}

/// The position of an image in an export when none is given.
pub fn default_index() -> (res: usize)
    ensures
        res == 1,
{
    1
}

impl Default for NamingRule {
    fn default() -> (res: Self)
        ensures
            res == NamingRule::NameWatermark,
    {
        NamingRule::NameWatermark
    }
}

impl Default for MetadataPolicy {
    fn default() -> (res: Self)
        ensures
            res == MetadataPolicy::ClearDescription,
    {
        MetadataPolicy::ClearDescription
    }
}

impl Default for OutputRules {
    fn default() -> (res: Self)
        ensures
            res.output_folder is None,
            res.naming_rule == NamingRule::NameWatermark,
            res.custom_prefix@ == "watermark"@,
            res.metadata_policy == MetadataPolicy::ClearDescription,
            res.description@ == Seq::<char>::empty(),
    {
        OutputRules {
            output_folder: None,
            naming_rule: NamingRule::NameWatermark,
            custom_prefix: default_custom_prefix(),
            metadata_policy: MetadataPolicy::ClearDescription,
            description: String::new(),
        }
    }
}

} // verus!
