use killer::process_image_url;
use killer::rewriter::{
    join_path, names_parent, parse_substitutions, path_under_root, rewrite_asset_url, url_to_path,
    Substitution,
};

fn chars(s: &str) -> Vec<char> {
    s.chars().collect()
}

fn text(v: &[char]) -> String {
    v.iter().collect()
}

#[test]
fn test_process_image_url_dataorg() {
    let image_to_process = "https;://data.org/pt/wp-content/uploads/2022/02/1032236189_0_0_3026_2048_600x0_80_0_1_c249d36098212f019e38be7a6bed98be.jpg";
    let image_processed = "/content/images/2022/02/1032236189_0_0_3026_2048_600x0_80_0_1_c249d36098212f019e38be7a6bed98be.jpg";
    let result = process_image_url(image_to_process);
    assert_eq!(result, image_processed);
}

#[test]
fn test_process_image_url_optionorg() {
    let image_to_process = "https://www.option.org/wp-content/uploads/2022/05/WhatsApp-Image-2022-05-16-at-17.08.43-1.jpeg";
    let image_processed = "/content/images/2022/05/WhatsApp-Image-2022-05-16-at-17.08.43-1.jpeg";
    let result = process_image_url(image_to_process);
    assert_eq!(result, image_processed);
}

#[test]
fn test_process_image_url_optionorg_bkp() {
    let image_to_process = "http://option.org/~bkp/wp-content/uploads/2015/10/test.jpg";
    let image_processed = "/content/images/2015/10/test.jpg";
    let result = process_image_url(image_to_process);
    assert_eq!(result, image_processed);
}

#[test]
fn test_process_image_url_withould_domain() {
    let image_to_process = "2015/10/test.jpg";
    let image_processed = "/content/images/2015/10/test.jpg";
    let result = process_image_url(image_to_process);
    assert_eq!(result, image_processed);
}

#[test]
fn test_url_to_path() {
    let patterns = parse_substitutions("https://pstu.org.br");
    assert!(patterns.is_empty());

    let url = "https://www.pstu.org.br/wp-content/uploads/2019/01/o-PINHEIRINHO-facebook.jpg";
    let root_path = "/var/www/wordpress";

    let expected_path = Some(
        "/var/www/wordpress/wp-content/uploads/2019/01/o-PINHEIRINHO-facebook.jpg".to_string(),
    );

    let result = url_to_path(url, root_path, &patterns);

    assert_eq!(result, expected_path);
}

#[test]
fn marker_suffix_does_not_depend_on_host() {
    assert_eq!(
        process_image_url("https://x.org/wp-content/uploads/2022/02/a.jpg"),
        "/content/images/2022/02/a.jpg"
    );
    assert_eq!(
        process_image_url("ftp://mirror.example/deep/dir/wp-content/uploads/2022/02/a.jpg"),
        "/content/images/2022/02/a.jpg"
    );
    assert_eq!(
        process_image_url("/wp-content/uploads/2022/02/a.jpg"),
        "/content/images/2022/02/a.jpg"
    );
}

#[test]
fn marker_without_uploads_keeps_its_directory() {
    assert_eq!(
        process_image_url("https://x.org/wp-content/themes/logo.png"),
        "/content/themes/logo.png"
    );
}

#[test]
fn empty_input_is_the_asset_root() {
    assert_eq!(process_image_url(""), "/content/images/");
}

#[test]
fn non_ascii_names_survive() {
    assert_eq!(
        process_image_url("https://x.org/wp-content/uploads/2020/01/opinião.jpg"),
        "/content/images/2020/01/opinião.jpg"
    );
    assert_eq!(process_image_url("2020/01/ação.png"), "/content/images/2020/01/ação.png");
}

#[test]
fn substitutions_are_read_from_a_list() {
    let subs = parse_substitutions("https://pstu.org.br|,http://old|https://new,broken,a|b|c,|x");
    assert_eq!(subs.len(), 3);
    assert_eq!(subs[0].pattern, "https://pstu.org.br");
    assert_eq!(subs[0].replacement, "");
    assert_eq!(subs[1].pattern, "http://old");
    assert_eq!(subs[1].replacement, "https://new");
    assert_eq!(subs[2].pattern, "");
    assert_eq!(subs[2].replacement, "x");
    assert!(parse_substitutions("").is_empty());
}

#[test]
fn mirror_and_canonical_rewrite_alike() {
    let subs = vec![Substitution {
        pattern: "https://mirror.example".to_string(),
        replacement: "https://pstu.org.br".to_string(),
    }];
    let mirror = rewrite_asset_url(
        "https://mirror.example/wp-content/uploads/2019/01/a.jpg",
        &subs,
        "/content/images",
    );
    let canonical = rewrite_asset_url(
        "https://pstu.org.br/wp-content/uploads/2019/01/a.jpg",
        &subs,
        "/content/images",
    );
    assert_eq!(mirror, canonical);
    assert_eq!(mirror, "/content/images/2019/01/a.jpg");
}

#[test]
fn substitution_can_bring_the_marker_in() {
    let subs = vec![Substitution {
        pattern: "cdn://assets/".to_string(),
        replacement: "https://pstu.org.br/wp-content/uploads/".to_string(),
    }];
    assert_eq!(
        rewrite_asset_url("cdn://assets/2019/01/a.jpg", &subs, "/images"),
        "/images/2019/01/a.jpg"
    );
    assert_eq!(rewrite_asset_url("2019/01/a.jpg", &subs, "/images"), "/images/2019/01/a.jpg");
}

#[test]
fn substitutions_apply_in_order() {
    let subs = vec![
        Substitution { pattern: "a".to_string(), replacement: "b".to_string() },
        Substitution { pattern: "b".to_string(), replacement: "c".to_string() },
    ];
    assert_eq!(rewrite_asset_url("aab", &subs, "/r"), "/r/ccc");
}

#[test]
fn mirror_and_canonical_resolve_alike() {
    let subs = parse_substitutions("https://mirror.example|https://pstu.org.br");
    let mirror = url_to_path(
        "https://mirror.example/wp-content/uploads/2019/01/a.jpg",
        "/var/www/wordpress",
        &subs,
    );
    let canonical = url_to_path(
        "https://pstu.org.br/wp-content/uploads/2019/01/a.jpg",
        "/var/www/wordpress",
        &subs,
    );
    assert_eq!(mirror, canonical);
    assert_eq!(mirror, Some("/var/www/wordpress/wp-content/uploads/2019/01/a.jpg".to_string()));
}

#[test]
fn a_relative_reference_does_not_resolve() {
    assert_eq!(url_to_path("2015/10/test.jpg", "/var/www/wordpress", &[]), None);
    assert_eq!(url_to_path("", "/var/www/wordpress", &[]), None);
}

#[test]
fn resolving_drops_query_and_encodes_the_path() {
    assert_eq!(
        url_to_path("https://x.org/a b/c.jpg?size=2#top", "/root/", &[]),
        Some("/root/a%20b/c.jpg".to_string())
    );
    assert_eq!(url_to_path("https://x.org", "/root", &[]), Some("/root/".to_string()));
}

#[test]
fn joining_paths() {
    assert_eq!(text(&join_path(&chars("/var/www"), &chars("a/b"))), "/var/www/a/b");
    assert_eq!(text(&join_path(&chars("/var/www/"), &chars("a/b"))), "/var/www/a/b");
    assert_eq!(text(&join_path(&chars(""), &chars("a/b"))), "a/b");
    assert_eq!(text(&join_path(&chars("/var/www"), &chars(""))), "/var/www/");
    assert_eq!(text(&join_path(&chars("/var/www"), &chars("/etc"))), "/etc");
}

#[test]
fn removed_mirror_domain_resolves_as_canonical() {
    let subs = vec![Substitution {
        pattern: "https://pstu.org.br".to_string(),
        replacement: String::new(),
    }];
    assert_eq!(subs, parse_substitutions("https://pstu.org.br|"));
    let root_path = "/var/www/wordpress";
    let mirror = url_to_path(
        "https://pstu.org.br/wp-content/uploads/2019/01/a.jpg",
        root_path,
        &subs,
    );
    let canonical = url_to_path(
        "https://www.opiniaosocialista.com.br/wp-content/uploads/2019/01/a.jpg",
        root_path,
        &subs,
    );
    let expected = Some("/var/www/wordpress/wp-content/uploads/2019/01/a.jpg".to_string());
    assert_eq!(mirror, expected);
    assert_eq!(canonical, expected);
}

#[test]
fn removed_mirror_domain_rewrites_as_canonical() {
    let subs = parse_substitutions("https://pstu.org.br|");
    let mirror = rewrite_asset_url(
        "https://pstu.org.br/wp-content/uploads/2019/01/a.jpg",
        &subs,
        "/content/images",
    );
    let canonical = rewrite_asset_url(
        "https://www.opiniaosocialista.com.br/wp-content/uploads/2019/01/a.jpg",
        &subs,
        "/content/images",
    );
    assert_eq!(mirror, "/content/images/2019/01/a.jpg");
    assert_eq!(canonical, mirror);
}

#[test]
fn a_path_resolves_without_a_domain() {
    assert_eq!(
        url_to_path("/wp-content/uploads/2019/01/a.jpg", "/var/www/wordpress", &[]),
        Some("/var/www/wordpress/wp-content/uploads/2019/01/a.jpg".to_string())
    );
    assert_eq!(url_to_path("///a.jpg", "/root", &[]), Some("/root/a.jpg".to_string()));
    assert_eq!(url_to_path("/", "/root", &[]), Some("/root/".to_string()));
}

#[test]
fn resolving_stays_under_the_root() {
    let root = "/var/www/wordpress";
    assert_eq!(url_to_path("x:../../etc/passwd", root, &[]), None);
    assert_eq!(url_to_path("x:..", root, &[]), None);
    assert_eq!(url_to_path("data:a/../b", root, &[]), None);
    assert_eq!(url_to_path("/../etc/passwd", root, &[]), None);
    assert_eq!(url_to_path("/a/b/..", root, &[]), None);
    let subs = parse_substitutions("https://pstu.org.br|/..");
    assert_eq!(url_to_path("https://pstu.org.br/etc/passwd", root, &subs), None);
    assert_eq!(
        url_to_path("x:a/..b/c...jpg", root, &[]),
        Some("/var/www/wordpress/a/..b/c...jpg".to_string())
    );
    assert_eq!(
        url_to_path("https://x.org/a/../../b.jpg", root, &[]),
        Some("/var/www/wordpress/b.jpg".to_string())
    );
    for url in ["x:../a", "https://x.org/%2e%2e/a.jpg", "/a/./b", "x:a//b"] {
        if let Some(path) = url_to_path(url, root, &[]) {
            assert!(path.starts_with(root));
            assert!(path[root.len()..].split('/').all(|segment| segment != ".."));
        }
    }
}

#[test]
fn paths_under_the_root() {
    assert_eq!(
        path_under_root(&chars("/a/b.jpg"), &chars("/root")).map(|p| text(&p)),
        Some("/root/a/b.jpg".to_string())
    );
    assert_eq!(
        path_under_root(&chars("a/b.jpg"), &chars("/root/")).map(|p| text(&p)),
        Some("/root/a/b.jpg".to_string())
    );
    assert_eq!(path_under_root(&chars(""), &chars("/root")).map(|p| text(&p)), Some("/root/".to_string()));
    assert_eq!(path_under_root(&chars("../../etc/passwd"), &chars("/root")), None);
    assert_eq!(path_under_root(&chars("//a/../b"), &chars("/root")), None);
    assert_eq!(path_under_root(&chars("a/.."), &chars("/root")), None);
    assert_eq!(
        path_under_root(&chars("a/.../b"), &chars("/root")).map(|p| text(&p)),
        Some("/root/a/.../b".to_string())
    );
}

#[test]
fn segments_that_name_the_parent() {
    assert!(names_parent(&chars("..")));
    assert!(names_parent(&chars("a/../b")));
    assert!(names_parent(&chars("/..")));
    assert!(names_parent(&chars("../")));
    assert!(!names_parent(&chars("")));
    assert!(!names_parent(&chars("a/b")));
    assert!(!names_parent(&chars("..a/b..")));
    assert!(!names_parent(&chars("./.")));
    assert!(!names_parent(&chars("...")));
}
