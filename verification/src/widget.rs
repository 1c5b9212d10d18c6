//! The address the floating widget loads from a development server.
use vstd::prelude::*;

use crate::text::{chars_of, string_of, strip_back, strip_back_chars, TrimSet};

verus! {

#[verifier::external_type_specification]
#[verifier::external_body]
pub struct ExUrl(url::Url);

/// The message of the error that `url::Url::parse` gives for the text `s`,
/// or `None` where `s` parses.
pub uninterp spec fn url_parse_error(s: Seq<char>) -> Option<Seq<char>>;

/// The URL that `url::Url::parse` gives for the text `s`, where it parses.
pub uninterp spec fn url_parsed(s: Seq<char>) -> url::Url;

/// Calls `url::Url::parse` on `s`.  Whether it parses, the URL it gives
/// and the message of its error (`to_string`) are tied to `s` by names;
/// the URL grammar is not restated.
#[verifier::external_body]
fn url_parse(s: &str) -> (r: Result<url::Url, String>)
    ensures
        match r {
            Ok(u) => url_parse_error(s@) is None && u == url_parsed(s@),
            Err(m) => url_parse_error(s@) == Some(m@),
        },
{
    match url::Url::parse(s) {
        Ok(u) => Ok(u),
        Err(e) => Err(e.to_string()),
    }
}

/// The address of the widget page under the development server `dev_url`:
/// the server address without trailing `/`, then `/widget.html`.
pub open spec fn widget_url_text(dev_url: Seq<char>) -> Seq<char> {
    strip_back(dev_url, TrimSet::Slash) + "/widget.html"@
}

/// The message that refuses an address that does not parse.
pub open spec fn bad_widget_url_message(err: Seq<char>) -> Seq<char> {
    "无效的小组件 URL: "@ + err
}

/// The URL of the widget page under the development server `dev_url`; an
/// error where that address does not parse.
pub fn widget_dev_url(dev_url: &str) -> (r: Result<url::Url, String>)
    ensures
        r is Ok <==> url_parse_error(widget_url_text(dev_url@)) is None,
        r matches Ok(u) ==> u == url_parsed(widget_url_text(dev_url@)),
        r matches Err(m) ==> m@ == bad_widget_url_message(url_parse_error(widget_url_text(dev_url@))->0),
{
    let base = strip_back_chars(&chars_of(dev_url), TrimSet::Slash);
    let mut text = string_of(&base);
    text.append("/widget.html");
    match url_parse(text.as_str()) {
        Ok(u) => Ok(u),
        Err(e) => {
            let mut m = "无效的小组件 URL: ".to_owned();
            m.append(e.as_str());
            Err(m)
        },
    }
}

} // verus!
