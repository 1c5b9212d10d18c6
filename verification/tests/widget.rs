use token_cost_analyzer::widget::widget_dev_url;

#[test]
fn widget_url_from_dev_server() {
    assert_eq!(widget_dev_url("http://localhost:1420").unwrap().as_str(), "http://localhost:1420/widget.html");
    assert_eq!(widget_dev_url("http://localhost:1420///").unwrap().as_str(), "http://localhost:1420/widget.html");
    assert_eq!(widget_dev_url("http://h/app/").unwrap().as_str(), "http://h/app/widget.html");
}

#[test]
fn widget_url_refused() {
    let e = widget_dev_url("not a url").unwrap_err();
    assert_eq!(e, format!("无效的小组件 URL: {}", url::Url::parse("not a url/widget.html").unwrap_err()));
    assert!(e.starts_with("无效的小组件 URL: "));
}
