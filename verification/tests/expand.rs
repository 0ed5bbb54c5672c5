use hunk_context::hunk::{hunk_with_context, HeaderField, HeaderParseError};

fn file_lines() -> Vec<&'static str> {
    let file_lines_before = r#"[package]
name = "gitbutler-core"
version = "0.0.0"
edition = "2021"

[features]
default = ["serde", "rusqlite"]
serde = ["dep:serde", "uuid/serde"]
rusqlite = ["dep:rusqlite"]

[dependencies]
rusqlite = { workspace = true, optional = true }
serde = { workspace = true, optional = true }
uuid = { workspace = true, features = ["v4", "fast-rng"] }
"#;
    file_lines_before.lines().collect::<Vec<_>>()
}

#[test]
fn replace_line_mid_file() {
    let hunk_diff = r#"@@ -8 +8 @@ default = ["serde", "rusqlite"]
-serde = ["dep:serde", "uuid/serde"]
+SERDE = ["dep:serde", "uuid/serde"]
"#;
    let with_ctx = hunk_with_context(hunk_diff, 8, false, 3, &file_lines()).unwrap();
    assert_eq!(
        with_ctx.diff,
        r#"@@ -5,7 +5,7 @@
 
 [features]
 default = ["serde", "rusqlite"]
-serde = ["dep:serde", "uuid/serde"]
+SERDE = ["dep:serde", "uuid/serde"]
 rusqlite = ["dep:rusqlite"]
 
 [dependencies]
"#
    );
    assert_eq!(with_ctx.old_start, 5);
    assert_eq!(with_ctx.old_lines, 7);
    assert_eq!(with_ctx.new_start, 5);
    assert_eq!(with_ctx.new_lines, 7);
}

#[test]
fn replace_line_top_file() {
    let hunk_diff = r#"@@ -2 +2 @@
-name = "gitbutler-core"
+NAME = "gitbutler-core"
"#;
    let with_ctx = hunk_with_context(hunk_diff, 2, false, 3, &file_lines()).unwrap();
    assert_eq!(
        with_ctx.diff,
        r#"@@ -1,5 +1,5 @@
 [package]
-name = "gitbutler-core"
+NAME = "gitbutler-core"
 version = "0.0.0"
 edition = "2021"
 
"#
    );
    assert_eq!(with_ctx.old_start, 1);
    assert_eq!(with_ctx.old_lines, 5);
    assert_eq!(with_ctx.new_start, 1);
    assert_eq!(with_ctx.new_lines, 5);
}

#[test]
fn replace_line_start_file() {
    let hunk_diff = "@@ -1 +1 @@
-[package]
+[PACKAGE]
";
    let with_ctx = hunk_with_context(hunk_diff, 1, false, 3, &file_lines()).unwrap();
    assert_eq!(
        with_ctx.diff,
        r#"@@ -1,4 +1,4 @@
-[package]
+[PACKAGE]
 name = "gitbutler-core"
 version = "0.0.0"
 edition = "2021"
"#
    );
    assert_eq!(with_ctx.old_start, 1);
    assert_eq!(with_ctx.old_lines, 4);
    assert_eq!(with_ctx.new_start, 1);
    assert_eq!(with_ctx.new_lines, 4);
}

#[test]
fn replace_line_bottom_file() {
    let hunk_diff = "@@ -13 +13 @@
-serde = { workspace = true, optional = true }
+SERDE = { workspace = true, optional = true }
";
    let with_ctx = hunk_with_context(hunk_diff, 13, false, 3, &file_lines()).unwrap();
    assert_eq!(
        with_ctx.diff,
        r#"@@ -10,5 +10,5 @@
 
 [dependencies]
 rusqlite = { workspace = true, optional = true }
-serde = { workspace = true, optional = true }
+SERDE = { workspace = true, optional = true }
 uuid = { workspace = true, features = ["v4", "fast-rng"] }
"#
    );
    assert_eq!(with_ctx.old_start, 10);
    assert_eq!(with_ctx.old_lines, 5);
    assert_eq!(with_ctx.new_start, 10);
    assert_eq!(with_ctx.new_lines, 5);
}

#[test]
fn malformed_old_start_is_an_error() {
    let hunk_diff = "@@ -x +8 @@\n-a\n+b\n";
    let result = hunk_with_context(hunk_diff, 8, false, 3, &file_lines());
    assert_eq!(result, Err(HeaderParseError { field: HeaderField::StartLineBefore }));
}

#[test]
fn malformed_new_start_is_an_error() {
    let hunk_diff = "@@ -8 +y,2 @@\n-a\n+b\n";
    let result = hunk_with_context(hunk_diff, 8, false, 3, &file_lines());
    assert_eq!(result, Err(HeaderParseError { field: HeaderField::StartLineAfter }));
}

#[test]
fn header_without_fields_is_an_error() {
    let result = hunk_with_context("@@ @@\n-a\n+b\n", 8, false, 3, &file_lines());
    assert_eq!(result, Err(HeaderParseError { field: HeaderField::StartLineBefore }));
}

#[test]
fn header_with_one_field_is_an_error() {
    let result = hunk_with_context("@@ -8 @@\n-a\n+b\n", 8, false, 3, &file_lines());
    assert_eq!(result, Err(HeaderParseError { field: HeaderField::StartLineAfter }));
}

#[test]
fn empty_text_is_an_error() {
    let result = hunk_with_context("", 8, false, 3, &file_lines());
    assert_eq!(result, Err(HeaderParseError { field: HeaderField::StartLineBefore }));
}

#[test]
fn old_start_is_looked_at_first() {
    let result = hunk_with_context("@@ -x +y @@\n-a\n", 8, false, 3, &file_lines());
    assert_eq!(result, Err(HeaderParseError { field: HeaderField::StartLineBefore }));
}

#[test]
fn error_messages_name_the_field() {
    let before = HeaderParseError { field: HeaderField::StartLineBefore };
    let after = HeaderParseError { field: HeaderField::StartLineAfter };
    assert_eq!(before.message(), "failed to parse unidiff header value for start line before");
    assert_eq!(after.message(), "failed to parse unidiff header value for start line after");
}

#[test]
fn binary_flag_is_passed_through() {
    let hunk_diff = "@@ -8 +8 @@\n-a\n+b\n";
    assert!(hunk_with_context(hunk_diff, 8, true, 3, &file_lines()).unwrap().binary);
    assert!(!hunk_with_context(hunk_diff, 8, false, 3, &file_lines()).unwrap().binary);
}

#[test]
fn zero_width_adds_no_context() {
    let hunk = hunk_with_context("@@ -8 +8 @@\n-a\n+b\n", 8, false, 0, &file_lines()).unwrap();
    assert_eq!(hunk.diff, "@@ -8,1 +8,1 @@\n-a\n+b\n");
    assert_eq!(hunk.old_start, 8);
    assert_eq!(hunk.old_lines, 1);
    assert_eq!(hunk.new_start, 8);
    assert_eq!(hunk.new_lines, 1);
}

#[test]
fn counts_in_the_given_header_are_passed_over() {
    let hunk = hunk_with_context("@@ -8,1 +8,1 @@\n-a\n+b\n", 8, false, 1, &file_lines()).unwrap();
    assert_eq!(
        hunk.diff,
        "@@ -7,3 +7,3 @@\n default = [\"serde\", \"rusqlite\"]\n-a\n+b\n rusqlite = [\"dep:rusqlite\"]\n"
    );
}

#[test]
fn final_line_feed_is_optional() {
    let with = hunk_with_context("@@ -8 +8 @@\n-a\n+b\n", 8, false, 2, &file_lines()).unwrap();
    let without = hunk_with_context("@@ -8 +8 @@\n-a\n+b", 8, false, 2, &file_lines()).unwrap();
    assert_eq!(with, without);
    assert!(with.diff.ends_with("[dependencies]\n") || with.diff.ends_with(" \n"));
    assert!(!with.diff.ends_with("\n\n"));
}

#[test]
fn carriage_returns_before_line_feeds_are_dropped() {
    let hunk = hunk_with_context("@@ -8 +8 @@\r\n-a\r\n+b\r\n", 8, false, 0, &file_lines()).unwrap();
    assert_eq!(hunk.diff, "@@ -8,1 +8,1 @@\n-a\n+b\n");
    let kept = hunk_with_context("@@ -8 +8 @@\n-a\r", 8, false, 0, &file_lines()).unwrap();
    assert_eq!(kept.diff, "@@ -8,1 +8,0 @@\n-a\r\n");
}

#[test]
fn signs_and_leading_zeros_in_the_header() {
    let plain = hunk_with_context("@@ 8 008 @@\n-a\n", 8, false, 0, &file_lines()).unwrap();
    assert_eq!(plain.diff, "@@ -8,1 +8,0 @@\n-a\n");
    let swapped = hunk_with_context("@@ +8 -9 @@\n-a\n", 8, false, 0, &file_lines()).unwrap();
    assert_eq!(swapped.old_start, 8);
    assert_eq!(swapped.new_start, 9);
    let doubled = hunk_with_context("@@ --8 +8 @@\n-a\n", 8, false, 0, &file_lines());
    assert_eq!(doubled, Err(HeaderParseError { field: HeaderField::StartLineBefore }));
    let bare = hunk_with_context("@@ -8 + @@\n-a\n", 8, false, 0, &file_lines());
    assert_eq!(bare, Err(HeaderParseError { field: HeaderField::StartLineAfter }));
    let comma = hunk_with_context("@@ ,8 +8 @@\n-a\n", 8, false, 0, &file_lines());
    assert_eq!(comma, Err(HeaderParseError { field: HeaderField::StartLineBefore }));
}

#[test]
fn start_lines_follow_the_integers_of_the_machine() {
    for field in [
        "0", "-0", "+0", "7", "-7", "+7", "0000000000000000000000000000000000012",
        "2147483647", "2147483648", "-2147483648", "-2147483649", "4294967295", "4294967296",
        "9223372036854775807", "9223372036854775808", "-9223372036854775808",
        "-9223372036854775809", "+9223372036854775807", "+9223372036854775808",
        "99999999999999999999999999999999999999999", "-", "+", "1x", "x1", "1-", "1.5", "٣",
        "1_000", "0x10", "١٢", "-+1",
    ] {
        let hunk_diff = format!("@@ {field} +1 @@\n-a\n");
        let result = hunk_with_context(&hunk_diff, 1, false, 0, &[]);
        match field.parse::<isize>() {
            Ok(value) => {
                let hunk = result.unwrap();
                assert_eq!(hunk.old_start, value.unsigned_abs() as u32, "{field}");
                assert_eq!(hunk.diff, format!("@@ -{},1 +1,0 @@\n-a\n", value.unsigned_abs()));
            }
            Err(_) => assert_eq!(
                result,
                Err(HeaderParseError { field: HeaderField::StartLineBefore }),
                "{field}"
            ),
        }
    }
}

#[test]
fn start_lines_keep_their_low_bits() {
    if usize::BITS == 64 {
        let hunk_diff = "@@ -5000000000 +4294967301 @@\n-a\n+b\n";
        let hunk = hunk_with_context(hunk_diff, 8, false, 0, &file_lines()).unwrap();
        assert_eq!(hunk.diff, "@@ -5000000000,1 +4294967301,1 @@\n-a\n+b\n");
        assert_eq!(hunk.old_start, 705032704);
        assert_eq!(hunk.new_start, 5);
    }
}

#[test]
fn start_lines_stop_at_zero() {
    let hunk = hunk_with_context("@@ -2 +1 @@\n-a\n+b\n", 8, false, 3, &file_lines()).unwrap();
    assert!(hunk.diff.starts_with("@@ -0,7 +0,7 @@\n"));
    assert_eq!(hunk.old_start, 0);
    assert_eq!(hunk.new_start, 0);
    let hunk = hunk_with_context("@@ -4 +3 @@\n-a\n+b\n", 8, false, 3, &file_lines()).unwrap();
    assert_eq!(hunk.old_start, 1);
    assert_eq!(hunk.new_start, 0);
}

#[test]
fn start_line_zero_takes_context_from_the_top() {
    let hunk = hunk_with_context("@@ -0 +0 @@\n-a\n", 0, false, 2, &file_lines()).unwrap();
    assert_eq!(
        hunk.diff,
        "@@ -0,3 +0,2 @@\n-a\n [package]\n name = \"gitbutler-core\"\n"
    );
    let hunk = hunk_with_context("@@ -0,0 +1 @@\n+a\n", 0, false, 2, &file_lines()).unwrap();
    assert_eq!(hunk.diff, "@@ -0,1 +1,2 @@\n+a\n [package]\n");
}

#[test]
fn hunk_behind_the_end_of_the_file() {
    let hunk = hunk_with_context("@@ -16 +16 @@\n-a\n+b\n", 16, false, 3, &file_lines()).unwrap();
    assert_eq!(
        hunk.diff,
        "@@ -14,3 +14,3 @@\n serde = { workspace = true, optional = true }\n uuid = { workspace = true, features = [\"v4\", \"fast-rng\"] }\n-a\n+b\n"
    );
    let far = hunk_with_context("@@ -40 +40 @@\n-a\n+b\n", 40, false, 3, &file_lines()).unwrap();
    assert_eq!(far.diff, "@@ -40,1 +40,1 @@\n-a\n+b\n");
    let last = hunk_with_context("@@ -9 +9 @@\n-a\n", usize::MAX, false, usize::MAX, &file_lines());
    assert_eq!(last.unwrap().diff.lines().count(), 1 + 14 + 1);
}

#[test]
fn empty_file_gives_no_context() {
    let hunk = hunk_with_context("@@ -1 +1 @@\n-a\n+b\n", 1, false, 3, &[]).unwrap();
    assert_eq!(hunk.diff, "@@ -1,1 +1,1 @@\n-a\n+b\n");
}

#[test]
fn several_changed_lines() {
    let hunk_diff = "@@ -2,3 +2,1 @@\n-name\n-version\n-edition\n+all\n";
    let hunk = hunk_with_context(hunk_diff, 2, false, 2, &file_lines()).unwrap();
    assert_eq!(
        hunk.diff,
        "@@ -1,6 +1,4 @@\n [package]\n-name\n-version\n-edition\n+all\n \n [features]\n"
    );
    assert_eq!(hunk.old_start, 1);
    assert_eq!(hunk.old_lines, 6);
    assert_eq!(hunk.new_start, 1);
    assert_eq!(hunk.new_lines, 4);
}

#[test]
fn only_the_body_is_counted() {
    let hunk = hunk_with_context("-8 +8\n-a\n+b\n", 8, false, 1, &file_lines()).unwrap();
    assert_eq!(hunk.old_lines, 3);
    assert_eq!(hunk.new_lines, 3);
    let hunk = hunk_with_context("@@ -8 +8 @@\n-a\n kept\n\n+b\n", 8, false, 1, &file_lines()).unwrap();
    assert_eq!(hunk.diff.lines().count(), 1 + 1 + 4 + 1);
    assert_eq!(hunk.old_lines, 3);
    assert_eq!(hunk.new_lines, 3);
}

#[test]
fn text_behind_the_header_is_dropped() {
    let hunk = hunk_with_context("@@ -8 +8 @@ fn main() {\n-a\n", 8, false, 0, &file_lines()).unwrap();
    assert_eq!(hunk.diff, "@@ -8,1 +8,0 @@\n-a\n");
}

#[test]
fn text_beyond_ascii_is_kept() {
    let file = ["größe = 1", "名前 = \"x\"", "ende"];
    let hunk = hunk_with_context("@@ -2 +2 @@\n-名前 = \"x\"\n+名前 = \"y\"\n", 2, false, 1, &file).unwrap();
    assert_eq!(hunk.diff, "@@ -1,3 +1,3 @@\n größe = 1\n-名前 = \"x\"\n+名前 = \"y\"\n ende\n");
}

fn changes(removed: usize, added: usize) -> String {
    let mut text = String::from("@@ -6 +6 @@\n");
    for i in 0..removed {
        text.push_str(&format!("-old {i}\n"));
    }
    for i in 0..added {
        text.push_str(&format!("+new {i}\n"));
    }
    text
}

#[test]
fn line_counts_add_up() {
    let file = file_lines();
    for start in 0..20usize {
        for width in 0..6usize {
            for removed in 0..4usize {
                for added in 0..3usize {
                    let text = changes(removed, added);
                    let hunk = hunk_with_context(&text, start, false, width, &file).unwrap();
                    let before = (1..=width)
                        .filter(|i| start > *i && start - i - 1 < file.len())
                        .count();
                    let after = (0..width)
                        .filter(|i| start + removed + i >= 1 && start + removed + i - 1 < file.len())
                        .count();
                    assert_eq!(hunk.old_lines as usize, removed + before + after);
                    assert_eq!(hunk.new_lines as usize, added + before + after);
                    assert_eq!(hunk.old_start as usize, 6usize.saturating_sub(before));
                    assert_eq!(hunk.new_start as usize, 6usize.saturating_sub(before));
                    assert_eq!(hunk.diff.lines().count(), 1 + before + removed + added + after);
                }
            }
        }
    }
}

#[test]
fn context_before_is_clamped_at_the_top() {
    let file = file_lines();
    for width in 1..6usize {
        for start in 0..=width {
            let hunk = hunk_with_context("@@ -9 +9 @@\n-a\n+b\n", start, false, width, &file).unwrap();
            let before = hunk.diff.lines().skip(1).take_while(|line| line.starts_with(' ')).count();
            assert!(before < width);
            assert_eq!(before, start.saturating_sub(1));
            assert_eq!(hunk.old_start as usize, 9 - before);
        }
    }
    let hunk = hunk_with_context("@@ -2 +2 @@\n-a\n+b\n", 2, false, 3, &file).unwrap();
    assert_eq!(hunk.old_start, 1);
    assert_eq!(hunk.new_start, 1);
}

#[test]
fn context_after_is_clamped_at_the_end() {
    let file = file_lines();
    for start in 10..=16usize {
        let text = format!("@@ -{start} +{start} @@\n-a\n+b\n");
        let hunk = hunk_with_context(&text, start, false, 5, &file).unwrap();
        let after = hunk.diff.lines().rev().take_while(|line| line.starts_with(' ')).count();
        assert_eq!(after, file.len().saturating_sub(start));
        let before = (start - 6..start - 1).filter(|at| *at < file.len()).count();
        assert_eq!(hunk.old_lines as usize, 1 + before + after);
    }
}

#[test]
fn header_counts_match_the_body() {
    let file = file_lines();
    for start in 1..16usize {
        for width in 0..5usize {
            let text = changes(start % 3 + 1, start % 2);
            let hunk = hunk_with_context(&text, start, false, width, &file).unwrap();
            let header = hunk.diff.lines().next().unwrap();
            let fields = header
                .split(|c| c == ' ' || c == '@')
                .filter(|field| !field.is_empty())
                .collect::<Vec<_>>();
            assert_eq!(fields.len(), 2);
            let old = fields[0].split(',').collect::<Vec<_>>();
            let new = fields[1].split(',').collect::<Vec<_>>();
            let old_lines = hunk.diff.lines().skip(1).filter(|line| !line.starts_with('+')).count();
            let new_lines = hunk.diff.lines().skip(1).filter(|line| !line.starts_with('-')).count();
            assert_eq!(old[1].parse::<usize>().unwrap(), old_lines);
            assert_eq!(new[1].parse::<usize>().unwrap(), new_lines);
            assert_eq!(old[0].parse::<isize>().unwrap().unsigned_abs(), hunk.old_start as usize);
            assert_eq!(new[0].parse::<isize>().unwrap().unsigned_abs(), hunk.new_start as usize);
            assert_eq!(hunk.old_lines as usize, old_lines);
            assert_eq!(hunk.new_lines as usize, new_lines);
        }
    }
}

#[test]
fn text_ends_with_one_line_feed() {
    let file = file_lines();
    for text in ["@@ -8 +8 @@", "@@ -8 +8 @@\n", "@@ -8 +8 @@\n-a", "@@ -8 +8 @@\n-a\n+b\n", "@@ -8 +8 @@\r\n-a\r\n"] {
        for width in 0..4usize {
            let hunk = hunk_with_context(text, 8, false, width, &file).unwrap();
            assert!(hunk.diff.ends_with('\n'));
            assert!(!hunk.diff.ends_with("\n\n"));
        }
    }
    let hunk = hunk_with_context("@@ -15 +15 @@\n-a\n\n", 15, false, 3, &file).unwrap();
    assert!(hunk.diff.ends_with("-a\n\n"));
}
