//! The shared string table loader.
//!
//! A document's shared-strings part holds one `<si>` entry per string;
//! only literal `<t>` text is captured, concatenated in document order,
//! while the text of a phonetic-hint `<rPh>` sub-element is excluded.  A
//! cell of shared-string type later stores only an index into this list.

use vstd::prelude::*;

use crate::text::is_tag;
use crate::xml::{EventV, XmlEvent};

verus! {

/// The interpreter state of the shared-strings walk.
pub struct SstState {
    pub strings: Seq<Seq<char>>,
    pub in_si: bool,
    pub in_t: bool,
    pub in_phonetic: bool,
    pub cur: Seq<char>,
}

pub open spec fn sst_init() -> SstState {
    SstState { strings: Seq::empty(), in_si: false, in_t: false, in_phonetic: false, cur: Seq::empty() }
}

/// What one event does to the shared-strings state: `<si>` starts a fresh
/// capture, `<t>` text inside it is appended unless a phonetic hint is
/// open, and `</si>` commits the captured string.
pub open spec fn sst_step(st: SstState, ev: EventV) -> SstState {
    match ev {
        EventV::Open { name, attrs } => {
            if is_tag(name, "si"@) {
                SstState { in_si: true, in_t: false, in_phonetic: false, cur: Seq::empty(), ..st }
            } else if is_tag(name, "t"@) && st.in_si && !st.in_phonetic {
                SstState { in_t: true, ..st }
            } else if is_tag(name, "rPh"@) && st.in_si {
                SstState { in_phonetic: true, in_t: false, ..st }
            } else {
                st
            }
        },
        EventV::Close { name } => {
            if is_tag(name, "si"@) && st.in_si {
                SstState {
                    strings: st.strings.push(st.cur),
                    in_si: false,
                    in_t: false,
                    in_phonetic: false,
                    cur: Seq::empty(),
                }
            } else if is_tag(name, "t"@) {
                SstState { in_t: false, ..st }
            } else if is_tag(name, "rPh"@) {
                SstState { in_phonetic: false, ..st }
            } else {
                st
            }
        },
        EventV::Text { text } => {
            if st.in_si && st.in_t && !st.in_phonetic {
                SstState { cur: st.cur + text, ..st }
            } else {
                st
            }
        },
        _ => st,
    }
}

/// The state after interpreting the first `i` events.
pub open spec fn sst_run(events: Seq<EventV>, i: int) -> SstState
    decreases i,
{
    if i <= 0 {
        sst_init()
    } else {
        sst_step(sst_run(events, i - 1), events[i - 1])
    }
}

/// Streams the shared-strings part's events into the ordered string list,
/// exactly as [`sst_run`] interprets them.
pub fn load_shared_strings(events: &Vec<XmlEvent>) -> (result: Vec<String>)
    ensures
        result.deep_view() == sst_run(events.deep_view(), events@.len() as int).strings,
{
    let ghost evs = events.deep_view();
    let mut strings: Vec<String> = Vec::new();
    let mut in_si: bool = false;
    let mut in_t: bool = false;
    let mut in_phonetic: bool = false;
    let mut cur: String = String::new();
    let n = events.len();
    let mut i: usize = 0;
    while i < n
        invariant
            n == events@.len(),
            evs == events.deep_view(),
            0 <= i <= n,
            ({
                let st = sst_run(evs, i as int);
                &&& st.strings == strings.deep_view()
                &&& st.in_si == in_si
                &&& st.in_t == in_t
                &&& st.in_phonetic == in_phonetic
                &&& st.cur == cur@
            }),
        decreases n - i,
    {
        proof {
            assert(evs[i as int] == events@[i as int].deep_view());
        }
        let ghost pre = sst_run(evs, i as int);
        match &events[i] {
            XmlEvent::Open { name, .. } => {
                if crate::text::tag_matches(name.as_slice(), "si") {
                    in_si = true;
                    in_t = false;
                    in_phonetic = false;
                    cur = String::new();
                } else if crate::text::tag_matches(name.as_slice(), "t") && in_si && !in_phonetic {
                    in_t = true;
                } else if crate::text::tag_matches(name.as_slice(), "rPh") && in_si {
                    in_phonetic = true;
                    in_t = false;
                }
            },
            XmlEvent::Close { name } => {
                if crate::text::tag_matches(name.as_slice(), "si") && in_si {
                    strings.push(cur);
                    cur = String::new();
                    in_si = false;
                    in_t = false;
                    in_phonetic = false;
                    proof {
                        assert(strings.deep_view() =~= pre.strings.push(pre.cur));
                    }
                } else if crate::text::tag_matches(name.as_slice(), "t") {
                    in_t = false;
                } else if crate::text::tag_matches(name.as_slice(), "rPh") {
                    in_phonetic = false;
                }
            },
            XmlEvent::Text { text } => {
                if in_si && in_t && !in_phonetic {
                    cur.append(text.as_str());
                }
            },
            _ => {},
        }
        i = i + 1;
        proof {
            assert(sst_run(evs, i as int) == sst_step(pre, evs[i - 1]));
        }
    }
    strings
}

} // verus!
