use mcu_simulater::artifact::{
    drvtest_app_bin, flyctrl_app_bin, flyctrl_real_app_bin, joc_base_build_dir, joc_base_elf,
    join, parent, resolve_in, sdk_app_bin, umbrella_root, Artifact,
};

const CANON: &str = "/canon";
const LEGACY: &str = "/legacy";

fn there(paths: &[&str]) -> Vec<String> {
    paths.iter().map(|p| p.to_string()).collect()
}

#[test]
fn env_wins_over_everything() {
    let got = resolve_in(
        CANON,
        LEGACY,
        Some("/tmp/nonexistent-env.elf"),
        &vec!["joc-base/build_hil/x.elf"],
        &vec!["joc-base/build_rel/x.elf"],
        &there(&["/canon/joc-base/build_hil/x.elf"]),
    );
    assert_eq!(got, "/tmp/nonexistent-env.elf");
}

#[test]
fn canonical_existing_wins_over_legacy() {
    let got = resolve_in(
        CANON,
        LEGACY,
        None,
        &vec!["joc-base/build_hil/stm32f407_minimal.elf"],
        &vec!["joc-base/build_hil/stm32f407_minimal.elf"],
        &there(&[
            "/legacy/joc-base/build_hil/stm32f407_minimal.elf",
            "/canon/joc-base/build_hil/stm32f407_minimal.elf",
        ]),
    );
    assert_eq!(got, "/canon/joc-base/build_hil/stm32f407_minimal.elf");
}

#[test]
fn legacy_build_rel_preferred_over_old_build_hil() {
    let got = resolve_in(
        CANON,
        LEGACY,
        None,
        &vec![
            "joc-base/build_hil/stm32f407_minimal.elf",
            "joc-base/build_hil/jOS.elf",
            "joc-base/build_rel/stm32f407_minimal.elf",
        ],
        &vec![
            "joc-base/build_rel/stm32f407_minimal.elf",
            "joc-base/build_rel/jOS.elf",
            "joc-base/build_hil/stm32f407_minimal.elf",
        ],
        &there(&[
            "/legacy/joc-base/build_hil/stm32f407_minimal.elf",
            "/legacy/joc-base/build_rel/stm32f407_minimal.elf",
        ]),
    );
    assert_eq!(got, "/legacy/joc-base/build_rel/stm32f407_minimal.elf");
}

#[test]
fn legacy_jos_elf_fallback() {
    let got = resolve_in(
        CANON,
        LEGACY,
        None,
        &vec!["joc-base/build_hil/stm32f407_minimal.elf", "joc-base/build_hil/jOS.elf"],
        &vec!["joc-base/build_rel/stm32f407_minimal.elf", "joc-base/build_rel/jOS.elf"],
        &there(&["/legacy/joc-base/build_rel/jOS.elf"]),
    );
    assert_eq!(got, "/legacy/joc-base/build_rel/jOS.elf");
}

#[test]
fn legacy_fallback_when_canonical_missing() {
    let got = resolve_in(
        CANON,
        LEGACY,
        None,
        &vec!["joc-base/build_hil/stm32f407_minimal.elf"],
        &vec!["joc-base/build_rel/stm32f407_minimal.elf"],
        &there(&["/legacy/joc-base/build_rel/stm32f407_minimal.elf"]),
    );
    assert_eq!(got, "/legacy/joc-base/build_rel/stm32f407_minimal.elf");
}

#[test]
fn none_exists_returns_first_canonical() {
    let got = resolve_in(
        CANON,
        LEGACY,
        None,
        &vec!["joc-base/build_hil/x.elf"],
        &vec!["joc-base/build_rel/x.elf"],
        &there(&[]),
    );
    assert_eq!(got, "/canon/joc-base/build_hil/x.elf");
}

#[test]
fn each_image_has_its_place() {
    let none = there(&[]);
    assert_eq!(joc_base_elf("/u", None, &none), "/u/joc-base/build_hil/stm32f407_minimal.elf");
    assert_eq!(
        joc_base_elf("/u", None, &there(&["/home/ubuntu/work/joc-base/build_rel/jOS.elf"])),
        "/home/ubuntu/work/joc-base/build_rel/jOS.elf"
    );
    assert_eq!(flyctrl_app_bin("/u", None, &none), "/u/flyctrl/app.bin");
    assert_eq!(flyctrl_real_app_bin("/u", None, &none), "/tmp/flyctrl_real.bin");
    assert_eq!(
        flyctrl_real_app_bin("/u", None, &there(&["/u/flyctrl/app_real.bin"])),
        "/u/flyctrl/app_real.bin"
    );
    assert_eq!(drvtest_app_bin("/u", None, &none), "/u/joc-drvtest-app/app.bin");
    assert_eq!(sdk_app_bin("/u", Some("x.bin"), &none), "x.bin");
    assert_eq!(joc_base_build_dir("/u", Some("/b/k.elf"), &none), "/b");
    assert_eq!(Artifact::Drvtest.env_key(), "JOC_APP_DRVTEST");
    assert_eq!(
        Artifact::Sdk.candidates("/u"),
        there(&["/u/joc-rtos-app-sdk/app.bin", "/home/ubuntu/work/joc-rtos-app-sdk/app.bin"])
    );
}

#[test]
fn paths_join_and_part_as_the_standard_library_does() {
    let roots = ["", "/", "a", "a/", "/a/b", "./a"];
    let rels = ["", "x", "x/y", "/x", "../x"];
    for root in roots {
        for rel in rels {
            let want = std::path::Path::new(root).join(rel);
            assert_eq!(join(root, rel), want.to_str().unwrap(), "{:?} {:?}", root, rel);
        }
    }
    let paths = [
        "", "/", "//", ".", "./", "./.", "..", "a", "a/", "a/.", "a/./", "a/b", "a/b/", "a//b",
        "a/./b", "a/b/.", "a/b/./c", "/a", "//a", "/a/b", "/./a", "/.", "./a", "./a/b", "../a",
        "a/..", ".a", "a.", "a/.b",
    ];
    for p in paths {
        let want = std::path::Path::new(p).parent().map(|d| d.to_str().unwrap().to_string());
        assert_eq!(parent(p), want, "{:?}", p);
    }
    assert_eq!(umbrella_root("/"), ".");
    assert_eq!(umbrella_root("/work/sim"), "/work");
}
