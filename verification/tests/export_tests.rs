use markc::domain::{ExportResult, MetadataPolicy, NamingRule, OutputRules};
use markc::export::{
    append_collision_suffix, batch_item_result, candidate_file_name, format_index,
    output_base_name, output_file_name, output_folder, sanitize_prefix, validate_batch,
    validate_export, BatchRun,
};
use std::path::Path;

fn output_path(source: &str, source_parent: &str, rules: &OutputRules, index: usize, taken: &[String]) -> String {
    let folder = output_folder(rules, Some(source_parent)).unwrap();
    let base = output_file_name(source, rules, index);
    let mut attempt = 0;
    loop {
        let candidate = Path::new(&folder)
            .join(candidate_file_name(&base, attempt))
            .to_string_lossy()
            .to_string();
        if !taken.contains(&candidate) {
            return candidate;
        }
        attempt += 1;
    }
}

#[test]
fn png_export_goes_to_default_folder_with_watermark_suffix() {
    let result = output_path("/tmp/export_png/sample.png", "/tmp/export_png", &OutputRules::default(), 1, &[]);
    assert!(result.ends_with("Watermark export/sample_watermark.png"));
}

#[test]
fn exports_jpeg_and_uses_collision_safe_filename() {
    let rules = OutputRules::default();
    let source = "/tmp/export_jpeg/sample.photo.jpg";
    let first = output_path(source, "/tmp/export_jpeg", &rules, 1, &[]);
    let second = output_path(source, "/tmp/export_jpeg", &rules, 1, &[first.clone()]);
    assert!(first.ends_with("Watermark export/sample.photo_watermark.jpg"));
    assert!(second.ends_with("Watermark export/sample.photo_watermark-2.jpg"));
}

#[test]
fn rejects_empty_watermark_text() {
    let error = validate_export(true, "   ").unwrap_err();
    assert!(error.contains("Watermark text is required"));
}

#[test]
fn supports_selected_output_folder_and_naming_rules() {
    let mut rules = OutputRules {
        output_folder: Some("/tmp/naming_rules/chosen".to_string()),
        naming_rule: NamingRule::WatermarkName,
        custom_prefix: "unused".to_string(),
        metadata_policy: Default::default(),
        description: String::new(),
    };
    let source = "/tmp/naming_rules/apple.png";
    let result = output_path(source, "/tmp/naming_rules", &rules, 1, &[]);
    assert!(result.ends_with("chosen/watermark_apple.png"));

    rules.naming_rule = NamingRule::WatermarkIndex;
    let result = output_path(source, "/tmp/naming_rules", &rules, 7, &[]);
    assert!(result.ends_with("chosen/watermark_007.png"));

    rules.naming_rule = NamingRule::CustomPrefixIndex;
    rules.custom_prefix = "bntxx".to_string();
    let result = output_path(source, "/tmp/naming_rules", &rules, 8, &[]);
    assert!(result.ends_with("chosen/bntxx_008.png"));
}

#[test]
fn batch_export_continues_after_missing_file_failure() {
    let mut run = BatchRun::new(vec![
        "/tmp/batch_partial/ready.png".to_string(),
        "/tmp/batch_partial/missing.png".to_string(),
    ]);
    let first = run.next_source().unwrap().clone();
    run.record(Ok(ExportResult {
        source_path: first,
        output_path: "/tmp/batch_partial/Watermark export/ready_watermark.png".to_string(),
        width: 36,
        height: 36,
    }));
    run.record(Err("Selected source image is not a readable file".to_string()));
    assert!(run.next_source().is_none());
    let result = run.finish(false);

    assert_eq!(result.completed, 1);
    assert_eq!(result.failed, 1);
    assert_eq!(result.results.len(), 2);
    assert!(result.results[0].success);
    assert!(!result.results[1].success);
}

#[test]
fn cancelled_batch_reports_remaining_sources() {
    let mut run = BatchRun::new(vec!["a.png".to_string(), "b.png".to_string(), "c.png".to_string()]);
    let item = run.record(Err("boom".to_string()));
    assert_eq!(item.error.as_deref(), Some("boom"));
    assert_eq!(run.total(), 3);
    let result = run.finish(true);
    assert_eq!(result.results.len(), 3);
    assert_eq!(result.completed, 0);
    assert_eq!(result.failed, 3);
    assert_eq!(result.results[1].source_path, "b.png");
    assert_eq!(result.results[2].error.as_deref(), Some("Export cancelled"));
}

#[test]
fn batch_item_reports_outcome() {
    let ok = batch_item_result(
        "s.png",
        Ok(ExportResult {
            source_path: "s.png".to_string(),
            output_path: "o.png".to_string(),
            width: 3,
            height: 4,
        }),
    );
    assert!(ok.success);
    assert_eq!(ok.output_path.as_deref(), Some("o.png"));
    assert_eq!((ok.width, ok.height), (Some(3), Some(4)));
    let err = batch_item_result("s.png", Err("nope".to_string()));
    assert!(!err.success);
    assert_eq!(err.error.as_deref(), Some("nope"));
    assert_eq!(err.source_path, "s.png");
}

#[test]
fn validates_batch_requests() {
    assert_eq!(validate_batch(0, "text").unwrap_err(), "Import images before batch export");
    assert_eq!(validate_batch(2, " \t").unwrap_err(), "Watermark text is required before export");
    assert!(validate_batch(2, "@me").is_ok());
    assert_eq!(
        validate_export(false, "x").unwrap_err(),
        "Selected source image is not a readable file"
    );
}

#[test]
fn names_follow_rules() {
    let mut rules = OutputRules::default();
    assert_eq!(output_base_name("pic", "JPG", &rules, 3), "pic_watermark.JPG");
    rules.naming_rule = NamingRule::CustomPrefixIndex;
    rules.custom_prefix = "  my prefix!  ".to_string();
    assert_eq!(output_base_name("pic", "png", &rules, 1234), "my_prefix__1234.png");
    rules.custom_prefix = "   ".to_string();
    assert_eq!(output_base_name("pic", "png", &rules, 0), "watermark_000.png");
    assert_eq!(output_file_name("dir/noext", &OutputRules::default(), 1), "noext_watermark.png");
    rules.metadata_policy = MetadataPolicy::Preserve;
}

#[test]
fn index_and_prefix_formatting() {
    assert_eq!(format_index(0), "000");
    assert_eq!(format_index(7), "007");
    assert_eq!(format_index(42), "042");
    assert_eq!(format_index(999), "999");
    assert_eq!(format_index(1000), "1000");
    assert_eq!(sanitize_prefix("a-b_c@d.e f"), "a-b_c@d_e_f");
    assert_eq!(sanitize_prefix(""), "watermark");
    assert_eq!(sanitize_prefix("é"), "_");
}

#[test]
fn collision_suffixes_count_up() {
    assert_eq!(candidate_file_name("x_watermark.png", 0), "x_watermark.png");
    assert_eq!(candidate_file_name("x_watermark.png", 1), "x_watermark-2.png");
    assert_eq!(candidate_file_name("x_watermark.png", 9), "x_watermark-10.png");
    assert_eq!(append_collision_suffix("noext", 3), "noext-3.png");
}

#[test]
fn output_folder_choice() {
    let mut rules = OutputRules::default();
    assert_eq!(output_folder(&rules, None).unwrap_err(), "Could not determine source folder");
    assert_eq!(output_folder(&rules, Some("/a")).unwrap(), "/a/Watermark export");
    rules.output_folder = Some("   ".to_string());
    assert_eq!(output_folder(&rules, Some("/a")).unwrap(), "/a/Watermark export");
    rules.output_folder = Some(" /out ".to_string());
    assert_eq!(output_folder(&rules, Some("/a")).unwrap(), " /out ");
}
