use atraverse::util::{slug, unique_name};

#[test]
fn unique_dir_returns_stem_when_free() {
    let taken: Vec<String> = Vec::new();
    assert_eq!(
        unique_name("script_20260919_104535", &taken, ""),
        "script_20260919_104535"
    );
}

#[test]
fn unique_dir_avoids_collision_without_overwriting() {
    let stem = "script_20260919_104535";
    let mut taken: Vec<String> = Vec::new();

    let d1 = unique_name(stem, &taken, "");
    taken.push(d1.clone());
    let d2 = unique_name(stem, &taken, "");
    assert_ne!(d1, d2, "同名目录已存在时必须换名");
    assert_eq!(d2, "script_20260919_104535_2");

    taken.push(d2.clone());
    let d3 = unique_name(stem, &taken, "");
    assert_eq!(d3, "script_20260919_104535_3");
    taken.push(d3.clone());

    assert_ne!(d1, d3);
    assert_ne!(d2, d3);
}

#[test]
fn slug_strips_unsafe_chars() {
    assert_eq!(slug("com.ss.android.ugc.aweme"), "com_ss_android_ugc_aweme");
    assert_eq!(slug("///"), "unknown");
    assert_eq!(slug("a b\tc"), "abc");
}
