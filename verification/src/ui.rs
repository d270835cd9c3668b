//! Small presentation-facing values: theme and status names, and the search
//! match rule of the endpoint sidebar.

use vstd::prelude::*;
use crate::strutil::trim_spec;

verus! {

/// The user's theme choice.
#[derive(Clone, Copy, Debug, PartialEq, Eq, Structural)]
pub enum ThemeMode {
    System,
    Light,
    Dark,
}

impl ThemeMode {
    /// The display name of the choice.
    pub fn label(self) -> (r: &'static str)
        ensures
            r@ == (match self {
                ThemeMode::System => "System"@,
                ThemeMode::Light => "Light"@,
                ThemeMode::Dark => "Dark"@,
            }),
    {
        match self {
            ThemeMode::System => "System",
            ThemeMode::Light => "Light",
            ThemeMode::Dark => "Dark",
        }
    }
}

/// Where an endpoint connection stands.
#[derive(Clone, Copy, Debug, PartialEq, Eq, Structural)]
pub enum McpStatus {
    Connected,
    Connecting,
    Disconnected,
}

impl McpStatus {
    /// The display name of the status.
    pub fn label(&self) -> (r: &'static str)
        ensures
            r@ == (match self {
                McpStatus::Connected => "Connected"@,
                McpStatus::Connecting => "Connecting"@,
                McpStatus::Disconnected => "Disconnected"@,
            }),
    {
        match self {
            McpStatus::Connected => "Connected",
            McpStatus::Connecting => "Connecting",
            McpStatus::Disconnected => "Disconnected",
        }
    }
}

/// The input bar's tool selector entries.
#[derive(Clone, Copy, Debug, PartialEq, Eq, Structural)]
pub enum InputTool {
    Tools,
    Mcps,
    Files,
}

impl InputTool {
    /// The display name of the entry.
    pub fn label(self) -> (r: &'static str)
        ensures
            r@ == (match self {
                InputTool::Tools => "Tools"@,
                InputTool::Mcps => "MCPs"@,
                InputTool::Files => "Files"@,
            }),
    {
        match self {
            InputTool::Tools => "Tools",
            InputTool::Mcps => "MCPs",
            InputTool::Files => "Files",
        }
    }
}

/// The case folding of a string of characters.
pub uninterp spec fn lower_of(s: Seq<char>) -> Seq<char>;

/// Relies on str::to_lowercase: the result depends on the characters alone,
/// and an empty string stays empty.
#[verifier::external_body]
fn to_lowercase(s: &str) -> (r: String)
    ensures
        r@ == lower_of(s@),
        s@.len() == 0 ==> r@.len() == 0,
{
    s.to_lowercase()
}

/// Whether `needle` occurs contiguously inside `hay`.
pub open spec fn is_substring(hay: Seq<char>, needle: Seq<char>) -> bool {
    exists|k: int|
        0 <= k <= hay.len() - needle.len() && #[trigger] hay.subrange(k, k + needle.len() as int)
            == needle
}

/// Finds `needle` inside `hay`.
fn contains_sub(hay: &str, needle: &str) -> (r: bool)
    ensures
        r == is_substring(hay@, needle@),
{
    let h = crate::strutil::to_chars(hay);
    let m = crate::strutil::to_chars(needle);
    let hn = h.len();
    let mn = m.len();
    if mn > hn {
        return false;
    }
    if mn == 0 {
        proof {
            assert(hay@.subrange(0, 0 + needle@.len() as int) =~= needle@);
            assert(0 <= 0 <= hay@.len() - needle@.len() && hay@.subrange(
                0,
                0 + needle@.len() as int,
            ) == needle@);
        }
        return true;
    }
    let mut k: usize = 0;
    while k <= hn - mn
        invariant
            mn <= hn,
            hn == hay@.len(),
            mn == needle@.len(),
            1 <= mn,
            h@ == hay@,
            m@ == needle@,
            k <= hn - mn + 1,
            forall|t: int|
                0 <= t < k ==> (#[trigger] hay@.subrange(t, t + needle@.len() as int)) != needle@,
        decreases hn - mn - k + 1,
    {
        let mut j: usize = 0;
        let mut ok = true;
        while j < mn && ok
            invariant
                mn <= hn,
                hn == hay@.len(),
                mn == needle@.len(),
                h@ == hay@,
                m@ == needle@,
                k <= hn - mn,
                j <= mn,
                ok ==> forall|t: int| 0 <= t < j ==> hay@[k + t] == needle@[t],
                !ok ==> hay@.subrange(k as int, k as int + mn as int) != needle@,
            decreases (if ok { 1int } else { 0int }) + mn - j,
        {
            if h[k + j] != m[j] {
                proof {
                    assert(hay@.subrange(k as int, k as int + mn as int)[j as int] == hay@[k
                        + j as int]);
                }
                ok = false;
            } else {
                j += 1;
            }
        }
        if ok {
            proof {
                assert(hay@.subrange(k as int, k as int + mn as int) =~= needle@);
            }
            return true;
        }
        k += 1;
    }
    proof {
        if is_substring(hay@, needle@) {
            let t = choose|t: int|
                0 <= t <= hay@.len() - needle@.len() && (#[trigger] hay@.subrange(
                    t,
                    t + needle@.len() as int,
                )) == needle@;
            assert(hay@.subrange(t, t + needle@.len() as int) != needle@);
        }
    }
    false
}

/// One endpoint entry in the sidebar list.
pub struct McpSidebarEntry {
    pub id: String,
    pub name: String,
    pub description: String,
    pub status: McpStatus,
}

impl McpSidebarEntry {
    /// Whether the entry matches a search query: a blank query matches
    /// everything, and otherwise the folded query must occur in the folded
    /// name or description.
    pub fn matches(&self, query: &str) -> (r: bool)
        ensures
            r == ({
                let q = lower_of(trim_spec(query@));
                q.len() == 0 || is_substring(lower_of(self.name@), q) || is_substring(
                    lower_of(self.description@),
                    q,
                )
            }),
    {
        let trimmed = crate::strutil::trim(query);
        let q = to_lowercase(trimmed.as_str());
        if q.unicode_len() == 0 {
            return true;
        }
        let name_folded = to_lowercase(self.name.as_str());
        if contains_sub(name_folded.as_str(), q.as_str()) {
            return true;
        }
        let desc_folded = to_lowercase(self.description.as_str());
        contains_sub(desc_folded.as_str(), q.as_str())
    }
}

} // verus!
