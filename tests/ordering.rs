use rip::{get_metadata_attribute, parse_metadata, parse_version, Error, PreReleaseType, Version};

fn v(s: &str) -> Version {
    parse_version(s.to_string()).unwrap()
}

#[test]
fn release_values_drop_leading_zeros() {
    assert_eq!(v("1.05.3").release, vec![1, 5, 3]);
    assert_eq!(v("007").release, vec![7]);
    assert_eq!(v("10.0.200").release, vec![10, 0, 200]);
}

#[test]
fn equality_ignores_formatting() {
    assert_eq!(v("1.5.3"), v("1.05.3"));
    assert!(!(v("1.5.3") < v("1.05.3")));
    assert!(!(v("1.5.3") > v("1.05.3")));
}

#[test]
fn epoch_dominates_release() {
    assert!(v("1!1.0") > v("2024.1.1"));
    assert!(v("2024.1.1") < v("1!1.0"));
    assert!(v("0!1.0") == v("1.0"));
}

#[test]
fn pre_release_before_final() {
    assert!(v("1.5.3a1") < v("1.5.3"));
    assert!(v("1.5.3a1") < v("1.5.3b1"));
    assert!(v("1.5.3b1") < v("1.5.3rc1"));
    assert!(v("1.5.3rc1") < v("1.5.3rc2"));
}

#[test]
fn dev_before_pre_release() {
    assert!(v("1.0.dev0") < v("1.0a1"));
    assert!(v("1.0a1.dev0") < v("1.0a1"));
    assert!(v("1.0.dev0") < v("1.0.dev1"));
    assert!(v("1.0.post1.dev0") < v("1.0.post1"));
    assert!(v("1.0.post1.dev0") > v("1.0"));
}

#[test]
fn post_release_after_final() {
    assert!(v("1.3.9.post12") > v("1.3.9"));
    assert!(v("1.3.9.post12") < v("1.3.10"));
    assert!(v("1.3.9-1") == v("1.3.9.post1"));
    assert!(v("1.3.9.post2") > v("1.3.9.post1"));
}

#[test]
fn aliases_normalize() {
    let a = v("1.5.3-preview1");
    let b = v("1.5.3rc1");
    assert_eq!(a.pre.as_ref().unwrap().0, b.pre.as_ref().unwrap().0);
    assert_eq!(a, b);
    assert_eq!(v("1.0alpha2").pre, Some((PreReleaseType::Alpha, vec![2])));
    assert_eq!(v("1.0beta").pre, Some((PreReleaseType::Beta, vec![0])));
    assert_eq!(v("1.0c3").pre, Some((PreReleaseType::Rc, vec![3])));
    assert_eq!(v("1.0.pre").pre, Some((PreReleaseType::Rc, vec![0])));
    assert_eq!(v("1.0RC1").pre, Some((PreReleaseType::Rc, vec![1])));
}

#[test]
fn release_padding() {
    assert_eq!(v("1.5"), v("1.5.0"));
    assert_eq!(v("1.5"), v("1.5.0.0"));
    assert!(v("1.5") < v("1.5.0.1"));
}

#[test]
fn malformed_inputs_fail() {
    for s in ["", "abc", "1.2.3-", "1.2.3+", "1..2", "1.0foo", "!1.0", "1!", "1.0 x"] {
        assert_eq!(parse_version(s.to_string()), Err(Error::MalformedVersion(s.to_string())));
    }
}

#[test]
fn numbers_beyond_u32_fail() {
    let s = "1.4294967296".to_string();
    assert_eq!(parse_version(s.clone()), Err(Error::MalformedVersion(s)));
    assert_eq!(v("4294967295").release, vec![4294967295]);
}

#[test]
fn spaces_and_leading_v() {
    let x = v("  v1.2.3\n");
    assert_eq!(x.release, vec![1, 2, 3]);
    assert_eq!(x.version_string, "  v1.2.3\n".to_string());
}

#[test]
fn labels_with_separators_and_defaults() {
    let x = v("1.0-a-1_post-2.dev3");
    assert_eq!(x.pre, Some((PreReleaseType::Alpha, vec![1])));
    assert_eq!(x.post, Some(2));
    assert_eq!(x.dev, Some(3));
    let y = v("1.0rev");
    assert_eq!(y.post, Some(0));
    assert_eq!(v("1.0r4").post, Some(4));
    assert_eq!(v("1.0.dev").dev, Some(0));
}

#[test]
fn local_label_is_normalized() {
    assert_eq!(v("1.0+Ubuntu-1_a").local, Some("ubuntu.1.a".to_string()));
}

#[test]
fn local_label_order() {
    assert!(v("1.0") < v("1.0+abc"));
    assert!(v("1.0+abc") < v("1.0+1"));
    assert!(v("1.0+1") < v("1.0+2"));
    assert!(v("1.0+9") < v("1.0+10"));
    assert!(v("1.0+abc") < v("1.0+abd"));
    assert!(v("1.0+ab") < v("1.0+abc"));
    assert!(v("1.0+1") < v("1.0+1.0"));
    assert_eq!(v("1.0+01"), v("1.0+1"));
    assert!(v("1.0+99999999999999999999") > v("1.0+1234"));
}

#[test]
fn total_order_on_a_chain() {
    let xs = ["1.0.dev0", "1.0a1", "1.0b1", "1.0rc1", "1.0", "1.0+local", "1.0.post1", "1.1", "1!0.1"];
    for i in 0..xs.len() {
        for j in 0..xs.len() {
            let a = v(xs[i]);
            let b = v(xs[j]);
            assert_eq!(a < b, i < j);
            assert_eq!(a == b, i == j);
            assert_eq!(a > b, i > j);
        }
    }
}

#[test]
fn attribute_value_is_cut_at_next_separator() {
    let doc = "Name: x: y\r\nVersion: 2.0\nSummary: none".to_string();
    assert_eq!(get_metadata_attribute(&doc, "Name:".to_string()), Ok("x".to_string()));
    assert_eq!(get_metadata_attribute(&doc, "Version:".to_string()), Ok("2.0".to_string()));
    assert_eq!(get_metadata_attribute(&doc, "Author:".to_string()),
               Err(Error::MissingField("Author:".to_string())));
}

#[test]
fn metadata_errors() {
    let missing = parse_metadata("Metadata-Version: 2.1\nVersion: 1.0".to_string());
    assert_eq!(missing.unwrap_err(), Error::MissingField("Name:".to_string()));
    let bad = parse_metadata("Metadata-Version: 2.1\nName: p\nVersion: one".to_string());
    assert_eq!(bad.unwrap_err(), Error::MalformedVersion("one".to_string()));
}

#[test]
fn unicode_white_space_is_trimmed() {
    assert_eq!(v("\u{3000}1.0\u{a0}").release, vec![1, 0]);
    assert_eq!(v("\t2.0 ").release, vec![2, 0]);
}

#[test]
fn epoch_beyond_u32_fails() {
    let s = "99999999999!1.0".to_string();
    assert_eq!(parse_version(s.clone()), Err(Error::MalformedVersion(s)));
    assert_eq!(v("4294967295!1.0").epoch, Some(4294967295));
}
