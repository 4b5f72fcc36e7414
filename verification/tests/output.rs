use std::path::PathBuf;
use third_party_licenses::command::{
    cargo_options, cargo_program, fetch_dependencies, run_cargo, CargoOpt, Features, Format,
    GenerateArgs, LicenseCommand,
};
use third_party_licenses::error::LicenseError;
use third_party_licenses::generate::{generate, render};
use third_party_licenses::html::{crate_url, html_escape, render_html, PAGE_HEAD};
use third_party_licenses::json::{json_document, render_json};
use third_party_licenses::listing::{
    license_sections, CrateInput, CrateRef, LicenseSection, FILTER_NOASSERTION,
};
use third_party_licenses::resolve::{Package, IGNORE_DEV_DEPENDENCIES};

fn package(name: &str, version: &str, license: Option<&str>, repository: Option<&str>) -> Package {
    Package {
        id: format!("registry+{name}@{version}"),
        name: name.to_string(),
        version: version.to_string(),
        license: license.map(|l| l.to_string()),
        repository: repository.map(|r| r.to_string()),
        manifest_path: format!("/cache/{name}/Cargo.toml"),
        dependencies: vec![],
        features: vec![],
    }
}

fn input<'a>(package: &'a Package, files: &[(&str, &str)]) -> CrateInput<'a> {
    CrateInput {
        package,
        files: files.iter().map(|(n, t)| (n.to_string(), t.to_string())).collect(),
    }
}

fn args(format: Format) -> GenerateArgs {
    GenerateArgs {
        manifest_path: "Cargo.toml".to_string(),
        features: Features::default(),
        format,
        output: None,
    }
}

fn section(id: &str, name: &str, text: &str, used_by: Vec<CrateRef>) -> LicenseSection {
    LicenseSection {
        id: id.to_string(),
        name: name.to_string(),
        text: text.to_string(),
        count: used_by.len(),
        used_by,
    }
}

fn crate_ref(name: &str, version: &str, repository: Option<&str>) -> CrateRef {
    CrateRef {
        name: name.to_string(),
        version: version.to_string(),
        repository: repository.map(|r| r.to_string()),
    }
}

fn shape(sections: &[LicenseSection]) -> Vec<String> {
    sections
        .iter()
        .map(|s| {
            let crates: Vec<String> =
                s.used_by.iter().map(|c| format!("{} {}", c.name, c.version)).collect();
            format!("{}|{}|{}|{}|{}", s.id, s.name, s.text, s.count, crates.join(","))
        })
        .collect()
}

#[test]
fn crates_are_listed_by_license() {
    let a = package("alpha", "1.0.0", Some("MIT OR Apache-2.0"), None);
    let b = package("beta", "0.2.0", Some("MIT"), Some("https://example.org/beta"));
    let none = package("gamma", "3.0.0", None, None);
    let b_old = package("beta", "0.10.0", Some("MIT AND Zlib"), None);
    let inputs = vec![
        input(&b, &[("LICENSE", " mit text\r\n")]),
        input(&a, &[("LICENSE-MIT", "mit text"), ("LICENSE-APACHE", "apache text")]),
        input(&none, &[("LICENSE", "nothing")]),
        input(&b_old, &[("LICENSE-MIT", "other mit text"), ("LICENSE-ZLIB", "zlib text")]),
    ];
    let sections = license_sections(&inputs, true).unwrap();
    assert_eq!(
        shape(&sections),
        vec![
            "Apache-2.0|Apache License 2.0|apache text|1|alpha 1.0.0",
            "MIT|MIT License|mit text|3|alpha 1.0.0,beta 0.10.0,beta 0.2.0",
            "Zlib|zlib License|zlib text|1|beta 0.10.0",
        ]
    );
    assert_eq!(sections[1].used_by[2].repository, Some("https://example.org/beta".to_string()));
}

#[test]
fn equal_crates_are_listed_once_with_the_first_repository() {
    let first = package("twin", "1.0.0", Some("ISC"), Some("https://one"));
    let second = package("twin", "1.0.0", Some("ISC"), Some("https://two"));
    let inputs = vec![input(&first, &[("ISC.txt", "x")]), input(&second, &[("ISC.txt", "x")])];
    let sections = license_sections(&inputs, true).unwrap();
    assert_eq!(shape(&sections), vec!["ISC|ISC License|x|1|twin 1.0.0"]);
    assert_eq!(sections[0].used_by[0].repository, Some("https://one".to_string()));
}

#[test]
fn generic_text_is_not_shared_by_several_licenses() {
    let a = package("alpha", "1.0.0", Some("MIT OR ISC"), None);
    let sections = license_sections(&vec![input(&a, &[("LICENSE", "which?")])], true).unwrap();
    assert_eq!(sections.len(), 2);
    for s in &sections {
        assert_eq!(s.text, spdx::license_id(&s.id).unwrap().text());
    }
    let b = package("beta", "1.0.0", Some("ISC"), None);
    let sections = license_sections(&vec![input(&b, &[("LICENSE", "this")])], true).unwrap();
    assert_eq!(sections[0].text, "this");
}

#[test]
fn unlicensed_crates_are_dropped_or_refused() {
    let none = package("gamma", "3.0.0", None, None);
    let b = package("beta", "0.2.0", Some("MIT"), None);
    let with = vec![input(&none, &[]), input(&b, &[])];
    let without = vec![input(&b, &[])];
    assert_eq!(
        shape(&license_sections(&with, true).unwrap()),
        shape(&license_sections(&without, true).unwrap())
    );
    assert_eq!(
        generate(&args(Format::Html), &with).unwrap(),
        generate(&args(Format::Html), &without).unwrap()
    );
    let error = license_sections(&with, false).unwrap_err();
    assert!(matches!(error, LicenseError::NoLicense { .. }));
    assert_eq!(error.message(), "Crate gamma 3.0.0 has no license information");
    assert!(FILTER_NOASSERTION);
    assert!(IGNORE_DEV_DEPENDENCIES);
}

#[test]
fn first_refused_crate_is_reported() {
    let ok = package("fine", "1.0.0", Some("MIT"), None);
    let bad = package("bad", "1.0.0", Some("GPL-3.0-only"), None);
    let odd = package("odd", "1.0.0", Some("MIT OR"), None);
    let error =
        generate(&args(Format::Json), &vec![input(&ok, &[]), input(&bad, &[]), input(&odd, &[])])
            .unwrap_err();
    assert_eq!(
        error.message(),
        "License `GPL-3.0-only` of crate bad 1.0.0 is not in the accepted list"
    );
    let error = generate(&args(Format::Html), &vec![input(&odd, &[]), input(&bad, &[])]).unwrap_err();
    assert_eq!(error.message(), "Cannot parse license `MIT OR` of odd 1.0.0");
}

#[test]
fn escaping() {
    assert_eq!(
        html_escape("<a href=\"x\">&amp;</a>"),
        "&lt;a href=&quot;x&quot;&gt;&amp;amp;&lt;/a&gt;"
    );
    assert_eq!(html_escape(""), "");
    assert_eq!(html_escape("it's \u{e9}"), "it's \u{e9}");
    let texts = ["", "&", "&amp;", "<", "&lt;", "\"", "&quot;", ">", "&gt;", "&amp", "amp;"];
    for a in texts {
        let escaped = html_escape(a);
        assert!(!escaped.contains(['<', '>', '"']));
        for b in texts {
            assert_eq!(escaped == html_escape(b), a == b);
        }
    }
}

#[test]
fn urls() {
    assert_eq!(crate_url(&crate_ref("serde", "1.0.0", None)), "https://crates.io/crates/serde");
    assert_eq!(crate_url(&crate_ref("serde", "1.0.0", Some("https://x/y"))), "https://x/y");
}

#[test]
fn html_page() {
    let sections = vec![
        section("A", "A & B", "<text>", vec![
            crate_ref("one", "1.0.0", None),
            crate_ref("two", "2.0.0", Some("https://x/?a&b")),
        ]),
        section("C", "C", "", vec![]),
    ];
    let expected = "            <li><a href=\"#A\">A &amp; B</a> (2)</li>\n\
        \u{20}           <li><a href=\"#C\">C</a> (0)</li>\n\
        \u{20}       </ul>\n\n        <h2>All license text:</h2>\n        <ul class=\"licenses-list\">\n\
        \u{20}           <li class=\"license\">\n\
        \u{20}               <h3 id=\"A\">A &amp; B</h3>\n\
        \u{20}               <h4>Used by:</h4>\n                <ul class=\"license-used-by\">\n\
        \u{20}                   <li><a href=\"https://crates.io/crates/one\">one 1.0.0</a></li>\n\
        \u{20}                   <li><a href=\"https://x/?a&amp;b\">two 2.0.0</a></li>\n\
        \u{20}               </ul>\n\
        \u{20}               <pre class=\"license-text\">&lt;text&gt;</pre>\n\
        \u{20}           </li>\n\
        \u{20}           <li class=\"license\">\n\
        \u{20}               <h3 id=\"C\">C</h3>\n\
        \u{20}               <h4>Used by:</h4>\n                <ul class=\"license-used-by\">\n\
        \u{20}               </ul>\n\
        \u{20}               <pre class=\"license-text\"></pre>\n\
        \u{20}           </li>\n\
        \u{20}       </ul>\n    <main></body></html>\n";
    assert_eq!(render_html(&sections), format!("{PAGE_HEAD}{expected}"));
    assert!(PAGE_HEAD.starts_with("<!DOCTYPE html>\n<html>\n<head>\n    <style>\n"));
    assert!(PAGE_HEAD.ends_with("        <ul class=\"licenses-overview\">\n"));
    assert_eq!(render(Format::Html, &sections), render_html(&sections));
}

#[test]
fn json_text() {
    let sections = vec![section("MIT", "MIT License", "a \"b\"\n", vec![
        crate_ref("one", "1.0.0", None),
        crate_ref("two", "2.0.0", Some("https://x")),
    ])];
    let expected = r#"{
  "licenses": [
    {
      "id": "MIT",
      "name": "MIT License",
      "text": "a \"b\"\n",
      "used_by": [
        {
          "crate": {
            "name": "one",
            "repository": null,
            "version": "1.0.0"
          }
        },
        {
          "crate": {
            "name": "two",
            "repository": "https://x",
            "version": "2.0.0"
          }
        }
      ]
    }
  ],
  "overview": [
    {
      "count": 2,
      "id": "MIT",
      "name": "MIT License"
    }
  ]
}"#;
    assert_eq!(render_json(&sections), expected);
    assert_eq!(render(Format::Json, &sections), expected);
    let parsed: serde_json::Value = serde_json::from_str(expected).unwrap();
    assert_eq!(json_document(&sections), parsed);
}

#[test]
fn json_of_nothing() {
    assert_eq!(render_json(&vec![]), "{\n  \"licenses\": [],\n  \"overview\": []\n}");
}

#[test]
fn documents_differ_where_listings_do() {
    let one = vec![section("MIT", "MIT License", "t", vec![crate_ref("a", "1", None)])];
    for other in [
        vec![],
        vec![section("ISC", "MIT License", "t", vec![crate_ref("a", "1", None)])],
        vec![section("MIT", "MIT", "t", vec![crate_ref("a", "1", None)])],
        vec![section("MIT", "MIT License", "u", vec![crate_ref("a", "1", None)])],
        vec![section("MIT", "MIT License", "t", vec![crate_ref("b", "1", None)])],
        vec![section("MIT", "MIT License", "t", vec![crate_ref("a", "2", None)])],
        vec![section("MIT", "MIT License", "t", vec![crate_ref("a", "1", Some(""))])],
    ] {
        assert_ne!(json_document(&one), json_document(&other));
    }
}

#[test]
fn generated_listing() {
    let b = package("beta", "0.2.0", Some("MIT"), None);
    let inputs = vec![input(&b, &[("LICENSE", "mit text")])];
    let html = generate(&args(Format::Html), &inputs).unwrap();
    assert!(html.contains("            <li><a href=\"#MIT\">MIT License</a> (1)</li>\n"));
    assert!(html.contains("<pre class=\"license-text\">mit text</pre>"));
    let json = generate(&args(Format::Json), &inputs).unwrap();
    let value: serde_json::Value = serde_json::from_str(&json).unwrap();
    assert_eq!(value["licenses"][0]["used_by"][0]["crate"]["name"], "beta");
    assert_eq!(value["overview"][0]["count"], 1);
}

#[test]
fn command_line_is_taken_over() {
    let command = LicenseCommand {
        manifest_path: None,
        features: vec!["a".to_string(), "b".to_string()],
        no_default_features: true,
        all_features: false,
        format: Format::Json,
        output: Some(PathBuf::from("out/licenses.json")),
    };
    let args = command.run();
    assert_eq!(args.manifest_path, "Cargo.toml");
    assert_eq!(args.features.features, command.features);
    assert!(args.features.no_default_features);
    assert!(!args.features.all_features);
    assert_eq!(args.format, Format::Json);
    assert_eq!(args.output, Some(PathBuf::from("out/licenses.json")));
    let named = LicenseCommand {
        manifest_path: Some("x/Cargo.toml".to_string()),
        output: None,
        ..command
    };
    assert_eq!(named.run().manifest_path, "x/Cargo.toml");
    assert_eq!(named.run().output, None);
}

#[test]
fn feature_flags_in_order() {
    let none = Features::default();
    assert!(cargo_options(&none).is_empty());
    let all = Features {
        features: vec!["a".to_string()],
        no_default_features: true,
        all_features: true,
    };
    let options = cargo_options(&all);
    assert_eq!(options.len(), 3);
    assert!(matches!(&options[0], CargoOpt::SomeFeatures(f) if f == &all.features));
    assert!(matches!(options[1], CargoOpt::NoDefaultFeatures));
    assert!(matches!(options[2], CargoOpt::AllFeatures));
}

#[test]
fn cargo_calls() {
    let args = fetch_dependencies(Some("/x/Cargo.toml")).unwrap();
    assert_eq!(args, vec!["fetch", "--manifest-path", "/x/Cargo.toml"]);
    let error = fetch_dependencies(None).unwrap_err();
    assert!(matches!(error, LicenseError::NonUtf8ManifestPath));
    assert_eq!(error.message(), "Non-UTF-8 manifest path");
    assert!(run_cargo(&args, Some(true)).is_ok());
    assert_eq!(
        run_cargo(&args, Some(false)).unwrap_err().message(),
        "cargo fetch --manifest-path /x/Cargo.toml failed"
    );
    assert_eq!(
        run_cargo(&args, None).unwrap_err().message(),
        "Failed to run cargo fetch --manifest-path /x/Cargo.toml"
    );
    assert_eq!(run_cargo(&vec![], Some(false)).unwrap_err().message(), "cargo  failed");
    assert_eq!(cargo_program(None), "cargo");
    assert_eq!(cargo_program(Some("/bin/cargo")), "/bin/cargo");
}

#[test]
fn every_licensed_crate_appears() {
    let licenses = ["MIT OR GPL-3.0-only", "(GPL-2.0-only OR Zlib) AND ISC", "apache2/MIT", "WTFPL"];
    let packages: Vec<Package> = licenses
        .iter()
        .enumerate()
        .map(|(i, l)| package(&format!("crate{i}"), "1.0.0", Some(l), None))
        .collect();
    let inputs: Vec<CrateInput> = packages.iter().map(|p| input(p, &[])).collect();
    let sections = license_sections(&inputs, true).unwrap();
    for p in &packages {
        assert!(sections.iter().any(|s| s.used_by.iter().any(|c| c.name == p.name)));
    }
    let names: Vec<&str> = sections.iter().map(|s| s.name.as_str()).collect();
    let mut sorted = names.clone();
    sorted.sort();
    assert_eq!(names, sorted);
}
