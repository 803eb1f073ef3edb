use conglobate::copy::{copy_plan, file_name, inside_root, mode_bits, ownership, CopyPlan};
use conglobate::init::{load_order, loaded_modules, modules_report, parse_args};
use conglobate::output::BuildChain;
use conglobate::recipe::{CopyDirective, FromSpec};
use conglobate::scute::{
    cow_name, cow_prefix_len, decode_root, derive_uuid_string, parse_allocated, parse_device,
    parse_root_hash, parse_sectors, snapshot_table, tool_error, verity_args, verity_name,
};
use conglobate::stage::{RunStage, StageAction, StagePhase};

#[test]
fn derive_uuid_string_is_canonical_and_deterministic() {
    let salt = vec![7u8; 32];
    let cow_digest = [9u8; 32];
    let a = derive_uuid_string(&salt, &cow_digest);
    assert_eq!(a, derive_uuid_string(&salt, &cow_digest));
    let lens: Vec<usize> = a.split('-').map(str::len).collect();
    assert_eq!(lens, vec![8, 4, 4, 4, 12]);
    assert!(a.chars().all(|c| c.is_ascii_hexdigit() || c == '-'));
}

#[test]
fn the_identifier_is_a_hash_over_salt_and_digest() {
    // The hash of nothing but thirty-two zero bytes.
    assert_eq!(
        derive_uuid_string(&[], &[0u8; 32]),
        "66687aad-f862-bd77-6c8f-c18b8e9f8e20"
    );
    assert_ne!(
        derive_uuid_string(&[1], &[0u8; 32]),
        derive_uuid_string(&[], &[0u8; 32])
    );
}

#[test]
fn the_sealing_tool_is_told_everything() {
    let args = verity_args(&[0xab, 0x01], b"");
    assert_eq!(
        &args[..10],
        &[
            "format",
            "--data-block-size",
            "4096",
            "--hash-block-size",
            "4096",
            "--hash",
            "sha256",
            "--salt",
            "ab01",
            "--uuid",
        ]
    );
    // The hash of no bytes at all.
    let digest = decode_root("e3b0c44298fc1c149afbf4c8996fb92427ae41e4649b934ca495991b7852b855");
    assert_eq!(args[10], derive_uuid_string(&[0xab, 0x01], &digest.unwrap()));
    assert_eq!(args.len(), 11);
}

#[test]
fn the_kept_prefix_is_whole_chunks_and_one_more() {
    assert_eq!(cow_prefix_len(0), 4096);
    assert_eq!(cow_prefix_len(1), 8192);
    assert_eq!(cow_prefix_len(8), 8192);
    assert_eq!(cow_prefix_len(9), 12288);
    assert_eq!(cow_prefix_len(2097144), 1 << 30);
    assert_eq!(cow_prefix_len(2097145), 1 << 30);
    assert_eq!(cow_prefix_len(u64::MAX), 1 << 30);
    for sectors in [0u64, 5, 77, 4096, 1 << 21, 1 << 40, u64::MAX - 3] {
        let want = sectors
            .div_ceil(8)
            .saturating_add(1)
            .saturating_mul(8)
            .saturating_mul(512)
            .min(1 << 30);
        assert_eq!(cow_prefix_len(sectors) as u64, want);
    }
}

#[test]
fn scute_files_are_numbered() {
    assert_eq!(cow_name(0), "0000.cow");
    assert_eq!(verity_name(12), "0012.verity");
    assert_eq!(cow_name(12345), "12345.cow");
}

#[test]
fn snapshots_are_described_and_read() {
    assert_eq!(
        snapshot_table(2048, "/dev/mapper/source", "/dev/loop0"),
        "0 2048 snapshot /dev/mapper/source /dev/loop0 PO 8"
    );
    assert_eq!(
        parse_allocated("build0", "0 2048 snapshot 16/2097152 8\n"),
        Ok(16)
    );
    assert_eq!(
        parse_allocated("build0", "0 2048 snapshot"),
        Err("dmsetup status build0: unexpected output \"0 2048 snapshot\"".to_string())
    );
    assert_eq!(
        parse_allocated("b", "0 1 snapshot Invalid"),
        Err("dmsetup status b: allocated \"Invalid\": invalid digit found in string".to_string())
    );
    assert_eq!(parse_sectors("/dev/x", " 2048\n"), Ok(2048));
    assert_eq!(
        parse_sectors("/dev/x", "\n"),
        Err(
            "parsing blockdev size for /dev/x: cannot parse integer from empty string".to_string()
        )
    );
    assert_eq!(
        parse_device("/tmp/cow0.img", "/dev/loop3\n"),
        Ok("/dev/loop3".to_string())
    );
    assert_eq!(
        parse_device("/tmp/cow0.img", " \n"),
        Err("losetup /tmp/cow0.img: empty device path".to_string())
    );
    assert_eq!(tool_error("dmsetup create x", " bad\n"), "dmsetup create x: bad");
}

#[test]
fn roots_are_thirty_two_bytes_in_hexadecimal() {
    let hex = "00ff".repeat(16);
    let mut root = [0u8; 32];
    for i in 0..16 {
        root[2 * i + 1] = 0xff;
    }
    assert_eq!(decode_root(&hex), Ok(root));
    assert_eq!(decode_root(&hex.to_uppercase()), Ok(root));
    assert_eq!(
        decode_root("abc"),
        Err("source root not hex: Odd number of digits".to_string())
    );
    assert_eq!(
        decode_root("ab\ng"),
        Err("source root not hex: Invalid character '\\n' at position 2".to_string())
    );
    assert_eq!(
        decode_root("é"),
        Err("source root not hex: Invalid character 'Ã' at position 0".to_string())
    );
    assert_eq!(
        decode_root("abcd"),
        Err("source root is 2 bytes, expected 32".to_string())
    );
    assert_eq!(
        parse_root_hash(&format!("VERITY header\nRoot hash:      \t{hex}\nRoot hash: 00\n")),
        Ok(root)
    );
    assert_eq!(
        parse_root_hash("nothing"),
        Err("veritysetup: no Root hash in output: nothing".to_string())
    );
    assert_eq!(
        parse_root_hash("Root hash: 0"),
        Err("veritysetup root hash not hex: Odd number of digits".to_string())
    );
    assert_eq!(
        parse_root_hash("Root hash:"),
        Err("veritysetup root hash is 0 bytes, expected 32".to_string())
    );
}

#[test]
fn each_scute_is_salted_with_the_root_before_it() {
    let mut chain = BuildChain::new([0u8; 32]);
    assert_eq!(chain.salt(), [0u8; 32]);
    assert_eq!(chain.index(), 0);
    chain.add([1u8; 32]);
    assert_eq!(chain.salt(), [1u8; 32]);
    chain.add([2u8; 32]);
    assert_eq!(chain.index(), 2);
    assert_eq!(chain.carapace_root(), "02".repeat(32));
    let out = chain.finish(None);
    let salts: Vec<&str> = out.scutes.iter().map(|s| s.salt.as_str()).collect();
    assert_eq!(salts, vec!["00".repeat(32), "01".repeat(32)]);
    assert_eq!(out.scutes[1].cow, "0001.cow");
    assert_eq!(out.scutes[1].verity, "0001.verity");
    assert_eq!(out.pmi, None);
}

fn copy(from: FromSpec, into: &str, owner: Option<&str>, group: Option<&str>) -> CopyDirective {
    CopyDirective {
        from,
        into: into.to_string(),
        owner: owner.map(str::to_string),
        group: group.map(str::to_string),
        mode: None,
    }
}

#[test]
fn file_names_are_last_parts() {
    for path in [
        "", "/", ".", "..", "a", "a/", "a/.", "a/..", "a/b", "./a", "//a//b//", "a/./b/.", "../a",
        "...", "a/b.txt", "./", "é/ü",
    ] {
        let want = std::path::Path::new(path)
            .file_name()
            .map(|n| n.to_str().unwrap_or_default().to_string());
        assert_eq!(file_name(path), want, "{path}");
    }
    assert_eq!(inside_root("//usr/lib/"), "usr/lib/");
    assert_eq!(inside_root("etc"), "etc");
}

#[test]
fn copies_are_planned() {
    let one = copy(FromSpec::One("app".to_string()), "/opt/app", None, None);
    assert_eq!(
        copy_plan(&one),
        CopyPlan::File("app".to_string(), "opt/app".to_string())
    );
    let many = FromSpec::Many(vec!["x/a".to_string(), "..".to_string()]);
    assert_eq!(
        copy_plan(&copy(many, "/usr/lib/", None, None)),
        CopyPlan::IntoDir(
            "usr/lib/".to_string(),
            vec![
                Ok(("x/a".to_string(), "a".to_string())),
                Err("copy source has no file name: ..".to_string()),
            ]
        )
    );
}

#[test]
fn modes_are_octal() {
    assert_eq!(mode_bits("0755"), Ok(0o755));
    assert_eq!(mode_bits("0o644"), Ok(0o644));
    assert_eq!(
        mode_bits("rwx"),
        Err("invalid mode \"rwx\": invalid digit found in string".to_string())
    );
    assert_eq!(
        mode_bits("0o"),
        Err("invalid mode \"0o\": cannot parse integer from empty string".to_string())
    );
}

#[test]
fn owners_and_groups_are_set_by_number() {
    let plan = |owner, group| {
        let o = ownership(&copy(FromSpec::Many(vec![]), "x", owner, group));
        (o.uid, o.gid, o.named_owner, o.named_group)
    };
    assert_eq!(plan(None, None), (None, None, false, false));
    assert_eq!(plan(None, Some("5")), (None, Some(5), false, false));
    assert_eq!(plan(Some("5"), None), (Some(5), None, false, false));
    assert_eq!(plan(Some("5"), Some("6")), (Some(5), Some(6), false, false));
    assert_eq!(plan(Some("5"), Some("staff")), (Some(5), None, false, true));
    assert_eq!(plan(Some("root"), Some("6")), (None, Some(6), true, false));
    assert_eq!(plan(Some("4294967296"), None), (None, None, true, false));
}

/// What a stage does when its actions come out as given, and what comes of it.
fn run_stage(
    binds: bool,
    network: bool,
    fails: Option<StageAction>,
) -> (Vec<StageAction>, Result<(), String>) {
    let mut stage = RunStage::start(binds, network);
    let mut log = Vec::new();
    loop {
        let action = stage.action();
        if action == StageAction::Stop {
            break;
        }
        log.push(action);
        let outcome = if fails == Some(action) {
            Err(format!("{action:?}"))
        } else {
            Ok(())
        };
        stage = stage.next(outcome);
    }
    match stage.phase {
        StagePhase::Over(r) => (log, r),
        other => panic!("expected the end, got {other:?}"),
    }
}

#[test]
fn stages_do_everything_in_order() {
    let all = vec![
        StageAction::Bind,
        StageAction::NetUp,
        StageAction::Exec,
        StageAction::NetDown,
        StageAction::Unbind,
    ];
    assert_eq!(run_stage(true, true, None), (all.clone(), Ok(())));
    assert_eq!(
        run_stage(true, true, Some(StageAction::Exec)),
        (all.clone(), Err("Exec".to_string()))
    );
    assert_eq!(
        run_stage(true, true, Some(StageAction::NetDown)),
        (all, Ok(()))
    );
    assert_eq!(
        run_stage(true, false, None),
        (
            vec![StageAction::Bind, StageAction::Exec, StageAction::Unbind],
            Ok(())
        )
    );
    assert_eq!(
        run_stage(false, false, None),
        (vec![StageAction::Exec], Ok(()))
    );
    assert_eq!(
        run_stage(true, true, Some(StageAction::NetUp)),
        (
            vec![StageAction::Bind, StageAction::NetUp],
            Err("NetUp".to_string())
        )
    );
    assert_eq!(
        run_stage(true, true, Some(StageAction::Bind)),
        (vec![StageAction::Bind], Err("Bind".to_string()))
    );
}

#[test]
fn modules_load_in_the_order_of_their_names() {
    let names: Vec<Vec<u8>> = vec![
        b"01-dm-bufio.ko".to_vec(),
        b"README".to_vec(),
        b"00-dm-mod.ko".to_vec(),
        b".ko".to_vec(),
        b"x.ko.xz".to_vec(),
        b"10-\xff.ko".to_vec(),
        b"..ko".to_vec(),
    ];
    let plan = load_order(names);
    let got: Vec<(&[u8], &str)> = plan
        .iter()
        .map(|m| (m.file.as_slice(), m.name.as_str()))
        .collect();
    assert_eq!(
        got,
        vec![
            (b"..ko".as_slice(), "."),
            (b"00-dm-mod.ko".as_slice(), "00-dm-mod"),
            (b"01-dm-bufio.ko".as_slice(), "01-dm-bufio"),
            (b"10-\xff.ko".as_slice(), "?"),
        ]
    );
    let tried = plan.into_iter().enumerate().map(|(i, m)| (m, i != 1));
    assert_eq!(
        loaded_modules(&tried.collect()),
        vec![".", "01-dm-bufio", "?"]
    );
    assert!(loaded_modules(&vec![]).is_empty());
    assert_eq!(modules_report(&vec![]), None);
    assert_eq!(
        modules_report(&vec!["a".to_string(), "b".to_string()]),
        Some("CONGLOBATE-MODULES: a,b".to_string())
    );
}

#[test]
fn arguments_ask_for_a_command_in_a_root() {
    let args = |list: &[&str]| list.iter().map(|a| a.to_string()).collect::<Vec<String>>();
    assert_eq!(parse_args(&args(&["init"])), None);
    assert_eq!(parse_args(&args(&["init", "other", "/r", "ls"])), None);
    assert_eq!(
        parse_args(&args(&["init", "__exec-in-root"])),
        Some(("/".to_string(), "".to_string()))
    );
    assert_eq!(
        parse_args(&args(&["init", "__exec-in-root", "/r", "ls", "more"])),
        Some(("/r".to_string(), "ls".to_string()))
    );
}
