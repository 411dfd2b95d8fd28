use universal_camera::lut::{
    imported_lut_id, imported_lut_stem, is_cube_file_name, name_order, safe_import_stem, validate_cube_lines, LutSampleCheck, MAX_LUT_BYTES,
};

#[test]
fn only_cube_names_are_imported_in_any_case() {
    assert!(is_cube_file_name("look.cube"));
    assert!(is_cube_file_name("LOOK.CUBE"));
    assert!(is_cube_file_name("../../unsafe.Cube"));
    assert!(is_cube_file_name(".cube"));
    assert!(!is_cube_file_name("look.cub"));
    assert!(!is_cube_file_name("cube"));
    assert!(!is_cube_file_name("look.cube.txt"));
    assert_eq!(MAX_LUT_BYTES, 4 * 1024 * 1024);
}

#[test]
fn import_stem_cannot_leave_the_managed_directory() {
    assert_eq!(safe_import_stem("../../unsafe.cube"), "unsafe");
    assert_eq!(safe_import_stem("my lut (v2).cube"), "mylutv2");
    assert_eq!(safe_import_stem("a.b.c.cube"), "abc");
    assert_eq!(safe_import_stem("no-extension"), "external");
    assert_eq!(safe_import_stem("....cube"), "external");
    assert_eq!(safe_import_stem("Ünïcode_名前.cube"), "ncode_");
    let long = format!("{}.cube", "a".repeat(60));
    assert_eq!(safe_import_stem(&long), "a".repeat(48));
}

#[test]
fn payload_identifiers_name_only_imported_stems() {
    assert_eq!(imported_lut_stem("imported:unsafe-1234"), Ok("unsafe-1234".to_string()));
    assert_eq!(imported_lut_stem("negative-pastel"), Err("only imported LUTs have file payloads"));
    assert_eq!(imported_lut_stem("imported"), Err("only imported LUTs have file payloads"));
    assert_eq!(imported_lut_stem("imported:"), Err("invalid imported LUT identifier"));
    assert_eq!(imported_lut_stem("imported:../secret"), Err("invalid imported LUT identifier"));
    assert_eq!(imported_lut_stem("imported:a b"), Err("invalid imported LUT identifier"));
}

fn sample_check(line: &str) -> LutSampleCheck {
    match line.split_whitespace().map(str::parse::<f32>).collect::<Result<Vec<_>, _>>() {
        Err(_) => LutSampleCheck::Unparsable,
        Ok(values) if values.len() != 3 || values.iter().any(|v| !v.is_finite() || !(-16.0..=16.0).contains(v)) => {
            LutSampleCheck::NotRgb
        }
        Ok(_) => LutSampleCheck::Valid,
    }
}

fn check_cube(content: &str) -> Result<(String, usize), String> {
    let lines: Vec<String> = content.lines().map(String::from).collect();
    let checks: Vec<LutSampleCheck> = lines.iter().map(|line| sample_check(line.trim())).collect();
    validate_cube_lines(content.len(), &lines, &checks)
}

#[test]
fn cube_structure_accepts_a_complete_table_and_rejects_truncation() {
    let valid = "TITLE \"Test\"\nLUT_3D_SIZE 2\n0 0 0\n0 0 1\n0 1 0\n0 1 1\n1 0 0\n1 0 1\n1 1 0\n1 1 1\n";
    assert_eq!(check_cube(valid), Ok(("Test".into(), 2)));
    assert_eq!(
        check_cube("LUT_3D_SIZE 2\n0 0 0\n"),
        Err("LUT declares 2³ but contains 1 samples; expected 8".into())
    );
}

#[test]
fn cube_structure_failures_are_reported_with_their_line() {
    let body = "0 0 0\n".repeat(8);
    assert_eq!(check_cube(&format!("# comment\n\nLUT_3D_SIZE 2\nDOMAIN_MIN 0 0 0\n{body}")), Ok(("Imported LUT".into(), 2)));
    assert_eq!(check_cube("LUT_3D_SIZE x\n"), Err("invalid LUT_3D_SIZE at line 1".into()));
    assert_eq!(check_cube("LUT_3D_SIZE 66\n"), Err("LUT_3D_SIZE must be between 2 and 65".into()));
    assert_eq!(check_cube("LUT_3D_SIZE 99999999999999999999999\n"), Err("invalid LUT_3D_SIZE at line 1".into()));
    assert_eq!(check_cube("LUT_1D_SIZE 16\n"), Err("1D LUT import is not supported".into()));
    assert_eq!(check_cube("TITLE \"\"\n"), Err("LUT TITLE must contain 1–120 characters".into()));
    assert_eq!(check_cube("LUT_3D_SIZE 2\n0 0 zero\n"), Err("invalid LUT sample at line 2".into()));
    assert_eq!(check_cube("LUT_3D_SIZE 2\n\n0 0 20\n"), Err("invalid RGB LUT sample at line 3".into()));
    assert_eq!(check_cube("0 0 0\n"), Err("LUT_3D_SIZE is required".into()));
    assert_eq!(check_cube(&" ".repeat(MAX_LUT_BYTES + 1)), Err("LUT exceeds the 4 MiB import limit".into()));
    let long_title = format!("TITLE \"{}\"\n", "t".repeat(121));
    assert!(check_cube(&long_title).is_err());
}

#[test]
fn imported_entries_are_listed_by_name_keeping_found_order_for_equal_names() {
    let names: Vec<String> = ["Warm", "Cool", "warm", "Cool", "Ätna", ""].iter().map(|s| s.to_string()).collect();
    let mut expected: Vec<usize> = (0..names.len()).collect();
    expected.sort_by(|a, b| names[*a].cmp(&names[*b]));
    assert_eq!(name_order(&names), expected);
    assert_eq!(name_order(&names), vec![5, 1, 3, 0, 2, 4]);
    assert!(name_order(&Vec::new()).is_empty());
    assert_eq!(imported_lut_id("look-123"), "imported:look-123");
}
