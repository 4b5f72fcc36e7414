use third_party_licenses::error::LicenseError;
use third_party_licenses::expression::{
    accepts, grant, is_accepted, is_single_license, judge, license_full_name, license_string,
    listed_licenses, LicenseItem, LicenseReq,
};
use third_party_licenses::files::{
    crate_license_files, find_license_text, is_license_file_name, license_files, suffix_to_id,
    DirEntry, ReadFile,
};
use third_party_licenses::harvest::{count_text, normalize_text, representative_text, text_or_remark};

fn spdx_req(name: &str, full_name: &str) -> LicenseReq {
    LicenseReq {
        license: LicenseItem::Spdx { name: name.to_string(), full_name: full_name.to_string() },
    }
}

fn other_req(doc_ref: Option<&str>, lic_ref: &str) -> LicenseReq {
    LicenseReq {
        license: LicenseItem::Other {
            doc_ref: doc_ref.map(|d| d.to_string()),
            lic_ref: lic_ref.to_string(),
        },
    }
}

fn pairs(list: &[(&str, &str)]) -> Vec<(String, String)> {
    list.iter().map(|(a, b)| (a.to_string(), b.to_string())).collect()
}

fn granted(license: &str) -> Vec<(String, String)> {
    judge("c", "1.0.0", license).unwrap().licenses
}

const MIT: (&str, &str) = ("MIT", "MIT License");
const APACHE: (&str, &str) = ("Apache-2.0", "Apache License 2.0");

#[test]
fn accepted_licenses() {
    for id in [
        "MIT",
        "Apache-2.0",
        "Apache-2.0 WITH LLVM-exception",
        "MPL-2.0",
        "Zlib",
        "BSD-2-Clause",
        "BSD-3-Clause",
        "CC0-1.0",
        "BSL-1.0",
        "ISC",
        "Unicode-DFS-2016",
        "Unicode-3.0",
        "OpenSSL",
        "Unlicense",
        "WTFPL",
        "LicenseRef-Slint-Software-3.0",
    ] {
        assert!(is_accepted(id), "{id}");
    }
    for id in ["", "mit", "GPL-3.0-only", "Apache-1.1", "LicenseRef-Other"] {
        assert!(!is_accepted(id), "{id}");
    }
}

#[test]
fn strings_and_names_of_requirements() {
    let mit = spdx_req("MIT", "MIT License");
    assert_eq!(license_string(&mit), "MIT");
    assert_eq!(license_full_name(&mit), "MIT License");
    assert!(accepts(&mit));
    let slint = other_req(None, "Slint-Software-3.0");
    assert_eq!(license_string(&slint), "LicenseRef-Slint-Software-3.0");
    assert_eq!(license_full_name(&slint), "LicenseRef-Slint-Software-3.0");
    assert!(accepts(&slint));
    let doc = other_req(Some("spec"), "x");
    assert_eq!(license_string(&doc), "DocumentRef-spec:LicenseRef-x");
    assert_eq!(license_full_name(&doc), "DocumentRef-spec:LicenseRef-x");
    assert!(!accepts(&doc));
}

#[test]
fn accepted_requirements_are_listed_in_order() {
    let reqs = vec![
        spdx_req("MIT", "MIT License"),
        spdx_req("GPL-3.0-only", "GNU"),
        spdx_req("Apache-2.0", "Apache License 2.0"),
        spdx_req("MIT", "MIT License"),
    ];
    assert_eq!(listed_licenses(&reqs), pairs(&[APACHE, MIT]));
    assert!(!is_single_license(&reqs));
    assert!(is_single_license(&vec![]));
    assert!(is_single_license(&vec![spdx_req("MIT", "a"), spdx_req("MIT", "b")]));
}

#[test]
fn grant_follows_the_evaluation() {
    let reqs = vec![spdx_req("MIT", "MIT License")];
    let ok = grant("c", "1.0.0", "MIT", true, &reqs).unwrap();
    assert_eq!(ok.licenses, pairs(&[MIT]));
    assert!(ok.single);
    assert!(grant("c", "1.0.0", "MIT", false, &reqs).is_err());
}

#[test]
fn expressions_are_judged() {
    assert_eq!(granted("MIT OR Apache-2.0"), pairs(&[APACHE, MIT]));
    assert_eq!(granted("MIT AND Apache-2.0"), pairs(&[APACHE, MIT]));
    assert_eq!(granted("MIT OR GPL-3.0-only"), pairs(&[MIT]));
    assert_eq!(granted("(MIT OR GPL-3.0-only) AND (GPL-2.0-only OR ISC)").len(), 2);
    assert_eq!(granted("Apache-2.0 WITH LLVM-exception"), pairs(&[APACHE]));
    assert_eq!(
        granted("GPL-3.0-only OR LicenseRef-Slint-Software-3.0"),
        pairs(&[("LicenseRef-Slint-Software-3.0", "LicenseRef-Slint-Software-3.0")])
    );
    assert!(judge("c", "1", "MIT OR MIT").unwrap().single);
    assert!(!judge("c", "1", "MIT OR GPL-3.0-only").unwrap().single);
}

#[test]
fn lax_spellings_are_understood() {
    assert_eq!(granted("MIT/Apache-2.0"), pairs(&[APACHE, MIT]));
    assert_eq!(granted("apache2"), pairs(&[APACHE]));
    assert_eq!(granted("Apache-2.0+"), pairs(&[APACHE]));
}

#[test]
fn unsatisfied_expression_is_refused() {
    for license in ["GPL-3.0-only", "MIT AND GPL-3.0-only", "DocumentRef-a:LicenseRef-b"] {
        let Err(error) = judge("evil", "6.6.6", license) else { panic!("{license}") };
        assert!(matches!(error, LicenseError::NotAccepted { .. }));
        assert_eq!(
            error.message(),
            format!("License `{license}` of crate evil 6.6.6 is not in the accepted list")
        );
        assert_eq!(error.cause(), None);
    }
}

#[test]
fn unparsable_expression_is_refused() {
    let Err(error) = judge("odd", "0.1.0", "MIT OR") else { panic!() };
    assert!(matches!(error, LicenseError::CannotParse { .. }));
    assert_eq!(error.message(), "Cannot parse license `MIT OR` of odd 0.1.0");
    let expected =
        spdx::Expression::parse_mode("MIT OR", spdx::ParseMode::LAX).unwrap_err().to_string();
    assert_eq!(error.cause(), Some(expected));
    assert!(judge("odd", "0.1.0", "").is_err());
    assert!(judge("odd", "0.1.0", "Nonsense-1.0").is_err());
}

#[test]
fn license_file_names() {
    for name in [
        "LICENSE", "license.md", "LICENSE-MIT", "Licence.txt", "COPYING", "copyright", "UNLICENSE",
        "NOTICE.txt", "LICENSES",
    ] {
        assert!(is_license_file_name(name), "{name}");
    }
    for name in ["README.md", "MY-LICENSE", "LICENS", "", "Cargo.toml"] {
        assert!(!is_license_file_name(name), "{name}");
    }
}

#[test]
fn files_are_chosen_by_directory() {
    let entry = |name: &str, is_file: bool| DirEntry { name: name.to_string(), is_file };
    let entries = vec![
        entry("README.md", true),
        entry("LICENSE", true),
        entry("LICENSES", false),
        entry("COPYING", true),
    ];
    assert_eq!(license_files(&entries, &entries), (vec![1, 3], vec![0, 1, 3]));
    assert_eq!(license_files(&vec![], &entries), (vec![], vec![0, 1, 3]));
    assert_eq!(license_files(&entries, &vec![]), (vec![1, 3], vec![]));
}

#[test]
fn suffixes() {
    for suffix in ["APACHE", "apache2", "Apache-2.0", "APACHE2.0"] {
        assert_eq!(suffix_to_id(suffix), Some("Apache-2.0"));
    }
    assert_eq!(suffix_to_id("mit"), Some("MIT"));
    assert_eq!(suffix_to_id("zlib"), Some("Zlib"));
    for suffix in ["MPL", "mpl-2.0", "MPL2"] {
        assert_eq!(suffix_to_id(suffix), Some("MPL-2.0"));
    }
    assert_eq!(suffix_to_id("ISC"), Some("ISC"));
    assert_eq!(suffix_to_id("BSL"), Some("BSL-1.0"));
    assert_eq!(suffix_to_id("boost"), Some("BSL-1.0"));
    assert_eq!(suffix_to_id("unicode"), Some("Unicode-3.0"));
    for suffix in ["", "MD", "GPL", "APACHE-2"] {
        assert_eq!(suffix_to_id(suffix), None);
    }
}

fn find(id: &str, files: &[(&str, &str)], only: bool) -> Option<String> {
    find_license_text(id, &pairs(files), only)
}

#[test]
fn texts_by_name_and_suffix() {
    let files = [
        ("LICENSE-MIT", "mit by suffix"),
        ("licence-apache.txt", "apache by suffix"),
        ("LICENSE.BOOST", "boost by suffix"),
        ("mit.txt", "mit by name"),
        ("MIT.md", "mit again"),
    ];
    assert_eq!(find("MIT", &files, false), Some("mit by name".to_string()));
    assert_eq!(find("Apache-2.0", &files, false), Some("apache by suffix".to_string()));
    assert_eq!(find("BSL-1.0", &files, true), Some("boost by suffix".to_string()));
    assert_eq!(find("ISC", &files, true), None);
    assert_eq!(find("MIT", &files[..3], false), Some("mit by suffix".to_string()));
    assert_eq!(
        find("Apache-2.0", &[("LICENSE-APACHE-2.0.txt", "a")], false),
        Some("a".to_string())
    );
}

#[test]
fn suffixes_may_hold_dots() {
    for (id, suffix) in
        [("Apache-2.0", "APACHE-2.0"), ("Apache-2.0", "Apache2.0"), ("MPL-2.0", "MPL-2.0")]
    {
        for prefix in ["LICENSE-", "LICENSE.", "LICENCE-", "licence."] {
            for extension in ["", ".txt", ".md"] {
                let name = format!("{prefix}{suffix}{extension}");
                for only in [false, true] {
                    assert_eq!(find(id, &[(&name, "a")], only), Some("a".to_string()), "{name}");
                    assert_eq!(find("MIT", &[(&name, "a")], only), None, "{name}");
                }
            }
        }
    }
    assert_eq!(find("MPL-2.0", &[("LICENSE-MPL-2.1", "a")], false), None);
}

#[test]
fn generic_file_serves_a_single_license() {
    for name in ["LICENSE", "License.md", "LICENCE.txt", "COPYING"] {
        assert_eq!(find("MIT", &[(name, "text")], true), Some("text".to_string()), "{name}");
        assert_eq!(find("MIT", &[(name, "text")], false), None, "{name}");
    }
    assert_eq!(find("MIT", &[("LICENSE", "a"), ("COPYING", "b")], true), None);
    assert_eq!(find("MIT", &[("NOTICE", "a"), ("LICENSE", "b")], true), Some("b".to_string()));
    assert_eq!(find("MIT", &[("LICENSE.APACHE", "a")], true), None);
    assert_eq!(find("MIT", &[("NOTICE", "a")], true), None);
    assert_eq!(find("MIT", &[("LICENSE", "a"), ("LICENSE-MIT", "b")], true), Some("b".to_string()));
    assert_eq!(find("MIT", &[], true), None);
}

fn harvest(list: &[(&str, usize)]) -> Vec<(String, usize)> {
    list.iter().map(|(t, n)| (t.to_string(), *n)).collect()
}

#[test]
fn most_frequent_text_is_shown() {
    let h = harvest(&[("rare", 1), ("frequent", 3), ("second", 2)]);
    assert_eq!(representative_text("MIT", Some(&h)), "frequent");
    let h = harvest(&[("longer text", 2), ("short", 2), ("rare", 1)]);
    assert_eq!(representative_text("MIT", Some(&h)), "short");
    let h = harvest(&[("\u{e9}\u{e9}", 1), ("abc", 1)]);
    assert_eq!(representative_text("MIT", Some(&h)), "abc");
    let h = harvest(&[("one", 1), ("two", 1)]);
    assert_eq!(representative_text("MIT", Some(&h)), "one");
}

#[test]
fn canonical_text_is_the_fallback() {
    let mit = spdx::license_id("MIT").unwrap().text();
    assert!(mit.contains("Permission is hereby granted"));
    assert_eq!(representative_text("MIT", None), mit);
    assert_eq!(representative_text("MIT", Some(&vec![])), mit);
    assert_eq!(
        representative_text("LicenseRef-x", None),
        "No license text available for LicenseRef-x."
    );
    assert_eq!(text_or_remark("a", Some("t".to_string())), "t");
    assert_eq!(text_or_remark("a", None), "No license text available for a.");
}

#[test]
fn texts_are_counted() {
    let mut h: Vec<(String, usize)> = Vec::new();
    for text in ["a", "b", "a", "c", "a", "b"] {
        count_text(&mut h, text.to_string());
    }
    assert_eq!(h, harvest(&[("a", 3), ("b", 2), ("c", 1)]));
    assert_eq!(normalize_text(Some(" x\r\n".to_string())), Some("x".to_string()));
    assert_eq!(normalize_text(None), None);
}

#[test]
fn unreadable_files_are_passed_over() {
    let file = |name: Option<&str>, text: Option<&str>| ReadFile {
        name: name.map(|n| n.to_string()),
        text: text.map(|t| t.to_string()),
    };
    let read = vec![
        file(Some("LICENSE"), Some("a")),
        file(None, Some("b")),
        file(Some("COPYING"), None),
        file(Some("NOTICE"), Some("c")),
    ];
    assert_eq!(crate_license_files(&read, &vec![]), pairs(&[("LICENSE", "a"), ("NOTICE", "c")]));
    assert_eq!(crate_license_files(&vec![], &read), pairs(&[("LICENSE", "a"), ("NOTICE", "c")]));
    assert_eq!(crate_license_files(&vec![], &vec![]), pairs(&[]));
}

#[test]
fn top_level_files_come_first() {
    let file = |name: &str, text: &str| ReadFile {
        name: Some(name.to_string()),
        text: Some(text.to_string()),
    };
    let top = vec![file("UNLICENSE", "top"), file("COPYING", "generic")];
    let licenses = vec![file("Unlicense.txt", "reuse"), file("ISC.txt", "isc")];
    let files = crate_license_files(&top, &licenses);
    assert_eq!(
        files,
        pairs(&[
            ("UNLICENSE", "top"),
            ("COPYING", "generic"),
            ("Unlicense.txt", "reuse"),
            ("ISC.txt", "isc"),
        ])
    );
    assert_eq!(find_license_text("Unlicense", &files, false), Some("top".to_string()));
    assert_eq!(find_license_text("ISC", &files, false), Some("isc".to_string()));
}
