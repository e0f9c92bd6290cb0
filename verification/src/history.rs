//! Data of the separate browser-history export tool. The tool itself
//! copies a browser's on-disk history database and queries it, which is
//! process plumbing outside the library; these are the values it exports.

use vstd::prelude::*;

verus! {

/// A browser whose history can be exported.
#[derive(Clone, Copy, PartialEq, Eq, Structural, Debug)]
pub enum Browser {
    Chrome,
    Edge,
    Firefox,
}

/// One visited page of an export.
pub struct HistoryEntry {
    pub url: String,
    pub title: Option<String>,
    pub visit_time: i64,
    pub browser: String,
}

/// One export: the browser's label and its entries.
pub struct HistoryDump {
    pub browser: String,
    pub entries: Vec<HistoryEntry>,
}

/// The label naming a browser in an export.
pub open spec fn browser_label_of(b: Browser) -> Seq<char> {
    match b {
        Browser::Chrome => "Chrome"@,
        Browser::Edge => "Edge"@,
        Browser::Firefox => "Firefox"@,
    }
}

pub fn browser_label(b: Browser) -> (r: String)
    ensures
        r@ == browser_label_of(b),
{
    match b {
        Browser::Chrome => String::from_str("Chrome"),
        Browser::Edge => String::from_str("Edge"),
        Browser::Firefox => String::from_str("Firefox"),
    }
}

} // verus!
