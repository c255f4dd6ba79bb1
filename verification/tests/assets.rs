use mousehole::assets::{bundle_present, content_type, serve_web, Asset};

fn bundle() -> Vec<String> {
    ["index.html", "assets/app.js", "assets/style.css", "assets/logo.svg", "help/index.html", "blob"]
        .iter()
        .map(|s| s.to_string())
        .collect()
}

fn status(rest: &str) -> u16 {
    match serve_web(rest, &bundle()) {
        Ok(_) => 200,
        Err(e) => e.status,
    }
}

#[test]
fn index_served_at_web_root_variants() {
    assert!(bundle_present(&bundle()));
    assert_eq!(status(""), 200);
    assert_eq!(status("/"), 200);
}

#[test]
fn miss_is_json_404_and_traversal_rejected() {
    assert_eq!(status("/definitely-missing.xyz"), 404);
    assert_eq!(status("/../Cargo.toml"), 404);
}

fn served(rest: &str) -> Asset {
    serve_web(rest, &bundle()).unwrap()
}

#[test]
fn files_have_their_content_types() {
    assert_eq!(served("").content_type, "text/html; charset=utf-8");
    assert_eq!(served("assets/app.js").content_type, "text/javascript; charset=utf-8");
    assert_eq!(served("/assets/style.css").content_type, "text/css; charset=utf-8");
    assert_eq!(served("assets/logo.svg").content_type, "image/svg+xml");
    assert_eq!(served("blob").content_type, "application/octet-stream");
    assert_eq!(content_type("text/x", "text"), "text/x; charset=utf-8");
    assert_eq!(content_type("textual/x", "textual"), "textual/x");
}

#[test]
fn directories_stand_for_their_index() {
    assert_eq!(served("help").path, "help/index.html");
    assert_eq!(served("//help/").path, "help/index.html");
    assert_eq!(served("///").path, "index.html");
    assert_eq!(status("assets"), 404);
    assert_eq!(status("index.html/"), 404);
}

#[test]
fn nothing_leads_out_of_the_bundle() {
    let mut files = bundle();
    files.push("..".to_string());
    files.push("a/../b".to_string());
    for rest in ["..", "a/../b", "help/..", "../index.html"] {
        let e = serve_web(rest, &files).unwrap_err();
        assert_eq!((e.status, e.body.message.as_str()), (404, "Not Found"));
    }
    files.push("...".to_string());
    assert!(serve_web("...", &files).is_ok());
    assert!(!bundle_present(&vec!["help/index.html".to_string()]));
}
