use conglobate::lock::{LockEntry, RefsLock};
use conglobate::output::{pmi_root, source_root, BuildOutput, ScuteOut};
use conglobate::recipe::{
    validate_directives, CarapaceRecipe, CopyDirective, Directive, FromSpec, PmiRecipe, RecipeError,
};
use serde::de::Error as _;
use serde_yaml::{Error, Mapping, Value};

/// The mapping that a value is, with no key but the given ones.
fn mapping(v: &Value, keys: &[&str]) -> Result<Mapping, Error> {
    let m = v.as_mapping().ok_or_else(|| Error::custom("not a mapping"))?;
    for k in m.keys() {
        if !k.as_str().is_some_and(|k| keys.contains(&k)) {
            return Err(Error::custom("unknown field"));
        }
    }
    Ok(m.clone())
}

fn optional(m: &Mapping, key: &str) -> Result<Option<String>, Error> {
    match m.get(key) {
        None | Some(Value::Null) => Ok(None),
        Some(Value::String(s)) => Ok(Some(s.clone())),
        Some(_) => Err(Error::custom("not a text")),
    }
}

fn required(m: &Mapping, key: &str) -> Result<String, Error> {
    optional(m, key)?.ok_or_else(|| Error::custom("missing field"))
}

fn sources(m: &Mapping) -> Result<FromSpec, Error> {
    match m.get("from") {
        Some(Value::String(s)) => Ok(FromSpec::One(s.clone())),
        Some(Value::Sequence(many)) => Ok(FromSpec::Many(
            many.iter()
                .map(|s| s.as_str().unwrap_or_default().to_string())
                .collect(),
        )),
        _ => Err(Error::custom("missing field")),
    }
}

fn directives(m: &Mapping) -> Result<Vec<Directive>, Error> {
    let mut all = Vec::new();
    for item in m.get("derive").and_then(Value::as_sequence).unwrap_or(&vec![]) {
        let raw = mapping(item, &["run", "copy"])?;
        let copy = match raw.get("copy") {
            None => None,
            Some(Value::Null) => Some(None),
            Some(c) => {
                let c = mapping(c, &["from", "into", "owner", "group", "mode"])?;
                Some(Some(CopyDirective {
                    from: sources(&c)?,
                    into: required(&c, "into")?,
                    owner: optional(&c, "owner")?,
                    group: optional(&c, "group")?,
                    mode: optional(&c, "mode")?,
                }))
            }
        };
        let run = match raw.get("run") {
            None => None,
            Some(_) => Some(optional(&raw, "run")?),
        };
        all.push(Directive::from_keys(run, copy).map_err(Error::custom)?);
    }
    Ok(all)
}

fn carapace(yaml: &str) -> Result<CarapaceRecipe, RecipeError> {
    CarapaceRecipe::parse(serde_yaml::from_str::<Value>(yaml).and_then(|v| {
        let m = mapping(&v, &["from", "derive"])?;
        Ok(CarapaceRecipe {
            from: required(&m, "from")?,
            derive: directives(&m)?,
        })
    }))
}

fn pmi(yaml: &str) -> Result<PmiRecipe, RecipeError> {
    PmiRecipe::parse(serde_yaml::from_str::<Value>(yaml).and_then(|v| {
        let m = mapping(&v, &["from", "derive", "into"])?;
        Ok(PmiRecipe {
            from: optional(&m, "from")?,
            derive: directives(&m)?,
            into: required(&m, "into")?,
        })
    }))
}

fn lock(yaml: &str) -> Result<RefsLock, RecipeError> {
    let decoded = serde_yaml::from_str::<Mapping>(yaml).and_then(|all| {
        let mut pairs = Vec::new();
        for (k, v) in &all {
            let m = mapping(v, &["manifest", "carapace"])?;
            let entry = LockEntry {
                manifest: required(&m, "manifest")?,
                carapace: required(&m, "carapace")?,
            };
            pairs.push((k.as_str().unwrap_or_default().to_string(), entry));
        }
        Ok(pairs)
    });
    RefsLock::parse(yaml, decoded)
}

#[test]
fn parses_full_carapace_recipe() {
    let yaml = r#"
from: registry.example.com/base/fedora:43
derive:
  - run: dnf install -y python3 torch
  - copy:
      from: ./app
      into: /opt/app
      owner: appuser
      group: appuser
      mode: "0755"
"#;
    let r = carapace(yaml).unwrap();
    assert_eq!(r.from, "registry.example.com/base/fedora:43");
    assert_eq!(r.derive.len(), 2);
    match &r.derive[0] {
        Directive::Run(cmd) => assert_eq!(cmd, "dnf install -y python3 torch"),
        other @ Directive::Copy(_) => panic!("expected run, got {other:?}"),
    }
    match &r.derive[1] {
        Directive::Copy(c) => {
            assert!(matches!(c.from, FromSpec::One(_)));
            assert_eq!(c.into, "/opt/app");
            assert_eq!(c.owner.as_deref(), Some("appuser"));
            assert_eq!(c.mode.as_deref(), Some("0755"));
        }
        other @ Directive::Run(_) => panic!("expected copy, got {other:?}"),
    }
}

#[test]
fn carapace_recipe_derive_is_optional() {
    let r = carapace("from: reg/base:1").unwrap();
    assert!(r.derive.is_empty());
}

#[test]
fn copy_accepts_a_list_of_sources() {
    let yaml = r"
from: reg/base:1
derive:
  - copy:
      from: [pichi.build/config.yaml, pichi.build/refs.lock]
      into: /usr/lib/corium/
";
    let r = carapace(yaml).unwrap();
    match &r.derive[0] {
        Directive::Copy(c) => match &c.from {
            FromSpec::Many(v) => assert_eq!(v.len(), 2),
            FromSpec::One(_) => panic!("expected list"),
        },
        other @ Directive::Run(_) => panic!("expected copy, got {other:?}"),
    }
}

#[test]
fn mode_with_list_source_is_rejected() {
    let yaml = r#"
from: reg/base:1
derive:
  - copy:
      from: [a, b]
      into: /dst/
      mode: "0644"
"#;
    let err = carapace(yaml).unwrap_err();
    assert!(matches!(err, RecipeError::Invalid(_)), "{err:?}");
}

#[test]
fn empty_from_is_rejected() {
    let err = carapace("from: \"\"").unwrap_err();
    assert!(matches!(err, RecipeError::Invalid(_)), "{err:?}");
}

#[test]
fn unknown_field_is_rejected() {
    let err = carapace("from: reg/base:1\nbogus: 1").unwrap_err();
    assert!(matches!(err, RecipeError::Parse(_)), "{err:?}");
}

#[test]
fn parses_full_pmi_recipe() {
    let yaml = r"
from: registry.example.com/base/kernel-builder:latest
derive:
  - run: dnf install -y kernel corium dracut
  - copy:
      from: [pichi.build/config.yaml, pichi.build/refs.lock]
      into: /usr/lib/corium/
  - run: dracut --add corium /tmp/initramfs.img
  - run: arma build --kernel /boot/vmlinuz-* --initramfs /tmp/initramfs.img -o /tmp/boot.pmi
into: /tmp/boot.pmi
";
    let r = pmi(yaml).unwrap();
    assert_eq!(
        r.from.as_deref(),
        Some("registry.example.com/base/kernel-builder:latest")
    );
    assert_eq!(r.into, "/tmp/boot.pmi");
    assert_eq!(r.derive.len(), 4);
}

#[test]
fn pmi_recipe_from_is_optional() {
    let r = pmi("into: /tmp/x.pmi").unwrap();
    assert!(r.from.is_none());
    assert!(r.derive.is_empty());
}

#[test]
fn pmi_recipe_requires_into() {
    let err = pmi("from: reg/b:1").unwrap_err();
    assert!(matches!(err, RecipeError::Parse(_)), "{err:?}");
}

#[test]
fn parses_refs_lock() {
    let yaml = r"
registry.example.com/models/llama:7b:
  manifest: sha256:abcdef0000000000000000000000000000000000000000000000000000000000
  carapace: sha256:def0000000000000000000000000000000000000000000000000000000000000
";
    let lock = lock(yaml).unwrap();
    let e = lock.get("registry.example.com/models/llama:7b").unwrap();
    assert!(e.manifest.starts_with("sha256:"));
    assert!(e.carapace.starts_with("sha256:"));
    assert!(lock.get("missing").is_none());
}

#[test]
fn empty_refs_lock_is_valid() {
    assert!(lock("").unwrap().entries.is_empty());
    assert!(lock("   \n").unwrap().entries.is_empty());
}

#[test]
fn refs_lock_rejects_non_sha256_digest() {
    let yaml = "reg/x:1:\n  manifest: deadbeef\n  carapace: sha256:aa\n";
    let err = lock(yaml).unwrap_err();
    assert!(matches!(err, RecipeError::Invalid(_)), "{err:?}");
}

/// The message of a document that broke a rule.
fn rule<T: std::fmt::Debug>(r: Result<T, RecipeError>) -> String {
    match r {
        Err(RecipeError::Invalid(text)) => text,
        other => panic!("expected a broken rule, got {other:?}"),
    }
}

#[test]
fn broken_rules_are_named() {
    assert_eq!(rule(carapace("from: \"  \"")), "carapace.yaml: `from` is empty");
    assert_eq!(rule(pmi("into: \"\"")), "pmi.yaml: `into` is empty");
    assert_eq!(
        rule(pmi("into: x\nfrom: \" \"")),
        "pmi.yaml: `from` is present but empty (omit it to build against carapace.yaml)"
    );
    assert_eq!(
        rule(pmi(
            "into: x\nderive: [{run: a}, {copy: {from: [a], into: \"/d\\\"/\", mode: \"1\"}}]"
        )),
        "copy into \"/d\\\"/\": `mode` is not allowed when `from` is a list of paths"
    );
    assert_eq!(
        rule(lock("reg/x:1:\n  manifest: \"sha256:\"\n  carapace: sha256:aa\n")),
        "refs.lock: reg/x:1: `manifest` is not a sha256 digest: \"sha256:\""
    );
    assert_eq!(
        rule(lock("reg/x:1:\n  manifest: sha256:a\n  carapace: md5:aa\n")),
        "refs.lock: reg/x:1: `carapace` is not a sha256 digest: \"md5:aa\""
    );
}

#[test]
fn a_directive_has_exactly_one_key() {
    let copy = || CopyDirective {
        from: FromSpec::One("a".to_string()),
        into: "b".to_string(),
        owner: None,
        group: None,
        mode: None,
    };
    let ls = || Some(Some("ls".to_string()));
    assert!(matches!(
        Directive::from_keys(ls(), None),
        Ok(Directive::Run(cmd)) if cmd == "ls"
    ));
    assert!(matches!(
        Directive::from_keys(None, Some(Some(copy()))),
        Ok(Directive::Copy(c)) if c.into == "b"
    ));
    let neither = "directive must be a `run:` or `copy:` mapping";
    assert_eq!(Directive::from_keys(None, None).unwrap_err(), neither);
    assert_eq!(Directive::from_keys(Some(None), None).unwrap_err(), neither);
    assert_eq!(Directive::from_keys(None, Some(None)).unwrap_err(), neither);
    // A key without a value is still a key.
    let both = "directive has both `run` and `copy`; use one per list item";
    assert_eq!(Directive::from_keys(ls(), Some(Some(copy()))).unwrap_err(), both);
    assert_eq!(Directive::from_keys(Some(None), Some(Some(copy()))).unwrap_err(), both);
    assert_eq!(Directive::from_keys(ls(), Some(None)).unwrap_err(), both);
    assert_eq!(Directive::from_keys(Some(None), Some(None)).unwrap_err(), both);
    assert!(!copy().from.is_list());
    assert!(FromSpec::Many(vec![]).is_list());
    assert!(validate_directives(&vec![Directive::Copy(copy())]).is_ok());
}

fn entry(tag: &str) -> LockEntry {
    LockEntry {
        manifest: format!("sha256:m{tag}"),
        carapace: format!("sha256:c{tag}"),
    }
}

#[test]
fn a_lock_finds_what_was_put_and_keeps_the_others() {
    let mut lock = RefsLock::default();
    for (reference, tag) in [("b", "1"), ("a", "2"), ("c", "3"), ("b", "4"), ("ab", "5")] {
        lock.insert(reference.to_string(), entry(tag));
    }
    let keys: Vec<&str> = lock.entries.iter().map(|e| e.0.as_str()).collect();
    assert_eq!(keys, vec!["a", "ab", "b", "c"]);
    assert_eq!(lock.get("b"), Some(&entry("4")));
    assert_eq!(lock.get("a"), Some(&entry("2")));
    assert_eq!(lock.get("d"), None);
}

#[test]
fn references_order_as_their_bytes_do() {
    let mut names = vec!["", "a", "ab", "b", "é", "z", "日本", "\u{10000}", "\u{ffff}", "a\u{0}"];
    let mut lock = RefsLock::default();
    for n in &names {
        lock.insert(n.to_string(), entry("0"));
    }
    names.sort();
    let keys: Vec<&str> = lock.entries.iter().map(|e| e.0.as_str()).collect();
    assert_eq!(keys, names);
}

#[test]
fn a_written_lock_reads_back() {
    let mut written = RefsLock::default();
    for (reference, tag) in [("reg/b:1", "1"), ("a", "2"), ("c", "3")] {
        written.insert(reference.to_string(), entry(tag));
    }
    let read = lock(&written.to_yaml().unwrap()).unwrap();
    assert_eq!(read.entries, written.entries);
    let empty = lock(&RefsLock::default().to_yaml().unwrap()).unwrap();
    assert!(empty.entries.is_empty());
    // Without a digest it is written, but not accepted.
    written.insert(
        "b".to_string(),
        LockEntry {
            manifest: "none".to_string(),
            carapace: "sha256:c".to_string(),
        },
    );
    assert_eq!(
        rule(lock(&written.to_yaml().unwrap())),
        "refs.lock: b: `manifest` is not a sha256 digest: \"none\""
    );
}

#[test]
fn a_lock_is_written_in_order() {
    let yaml = "b:\n  manifest: sha256:m1\n  carapace: sha256:c1\na:\n  carapace: sha256:c2\n  manifest: sha256:m2\n";
    assert_eq!(
        lock(yaml).unwrap().to_yaml().unwrap(),
        "a:\n  manifest: sha256:m2\n  carapace: sha256:c2\nb:\n  manifest: sha256:m1\n  carapace: sha256:c1\n"
    );
    assert!(RefsLock::default().fits_yaml());
    assert_eq!(RefsLock::default().to_yaml().unwrap(), "{}\n");
    let mut one = RefsLock::default();
    one.insert("reg/x:1".to_string(), entry("1"));
    assert_eq!(
        one.to_yaml().unwrap(),
        "reg/x:1:\n  manifest: sha256:m1\n  carapace: sha256:c1\n"
    );
}

#[test]
fn a_lock_file_does_not_depend_on_the_order_of_updates() {
    let mut one = RefsLock::default();
    let mut two = RefsLock::default();
    for (reference, tag) in [("b", "1"), ("a", "2"), ("c", "3")] {
        one.insert(reference.to_string(), entry(tag));
    }
    for (reference, tag) in [("c", "3"), ("b", "9"), ("a", "2"), ("b", "1")] {
        two.insert(reference.to_string(), entry(tag));
    }
    assert_eq!(one.to_yaml().unwrap(), two.to_yaml().unwrap());
}

#[test]
fn a_manifest_is_written_with_its_scutes() {
    let scute = ScuteOut {
        cow: "0000.cow".to_string(),
        verity: "0000.verity".to_string(),
        salt: "00".to_string(),
    };
    let out = BuildOutput {
        scutes: vec![scute],
        pmi: Some("boot.pmi".to_string()),
    };
    assert!(out.fits_yaml());
    assert_eq!(
        out.to_yaml().unwrap(),
        "scutes:\n- cow: 0000.cow\n  verity: 0000.verity\n  salt: '00'\npmi: boot.pmi\n"
    );
    let none = BuildOutput {
        scutes: vec![],
        pmi: None,
    };
    assert_eq!(none.to_yaml().unwrap(), "scutes: []\npmi: null\n");
    assert!(BuildOutput::parse(Ok(none)).unwrap().scutes.is_empty());
    assert!(matches!(
        BuildOutput::parse(Err(Error::custom("no"))),
        Err(RecipeError::Parse(_))
    ));
}

#[test]
fn roots_come_from_the_lock() {
    let mut lock = RefsLock::default();
    lock.insert("base".to_string(), entry("1"));
    assert_eq!(source_root(&lock, "base"), Ok("c1".to_string()));
    assert_eq!(
        source_root(&lock, "other"),
        Err("refs.lock has no carapace root for `other`".to_string())
    );
    assert_eq!(pmi_root(&lock, &None), Ok(None));
    assert_eq!(
        pmi_root(&lock, &Some("base".to_string())),
        Ok(Some("c1".to_string()))
    );
    assert_eq!(
        pmi_root(&lock, &Some("x".to_string())),
        Err("refs.lock has no root for pmi.yaml from `x`".to_string())
    );
}
