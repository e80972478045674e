//! Parsing of the request-target: the middle token of the request line.

use vstd::prelude::*;
use crate::util::{find_byte, find_byte_at, find_scheme_sep, find_scheme_sep_at};

verus! {

/// The four request-target forms of HTTP.
#[derive(Debug, Clone, PartialEq, Eq)]
pub enum RequestTarget {
    /// `/path?query`
    Origin(Vec<u8>),
    /// `scheme://authority/path?query`
    Absolute { authority: Vec<u8>, path: Vec<u8> },
    /// `host:port`, used by CONNECT
    Authority(Vec<u8>),
    /// `*`, used by OPTIONS
    Asterisk,
}

/// Whether a raw request-target is syntactically acceptable: non-empty,
/// and, in absolute form, with a non-empty scheme and authority.
pub open spec fn target_valid(s: Seq<u8>) -> bool {
    if s.len() == 0 {
        false
    } else if s == seq![42u8] {
        true
    } else if s[0] == 47 {
        true
    } else {
        let k = find_scheme_sep(s);
        if k >= 0 {
            let rest = s.subrange(k + 3, s.len() as int);
            let j = find_byte(rest, 47);
            k > 0 && (if j >= 0 {
                j > 0
            } else {
                rest.len() > 0
            })
        } else {
            true
        }
    }
}

/// The parsed form a raw request-target corresponds to.
pub open spec fn target_matches(t: RequestTarget, s: Seq<u8>) -> bool {
    if s == seq![42u8] {
        t is Asterisk
    } else if s.len() > 0 && s[0] == 47 {
        t matches RequestTarget::Origin(p) && p@ == s
    } else {
        let k = find_scheme_sep(s);
        if k >= 0 {
            let rest = s.subrange(k + 3, s.len() as int);
            let j = find_byte(rest, 47);
            if j >= 0 {
                t matches RequestTarget::Absolute { authority, path } && authority@
                    == rest.subrange(0, j) && path@ == rest.subrange(j, rest.len() as int)
            } else {
                t matches RequestTarget::Absolute { authority, path } && authority@ == rest
                    && path@ == Seq::<u8>::empty()
            }
        } else {
            t matches RequestTarget::Authority(a) && a@ == s
        }
    }
}

/// Parses a raw request-target into one of the four forms.
pub fn parse(s: &[u8]) -> (r: Option<RequestTarget>)
    ensures
        match r {
            Some(t) => target_valid(s@) && target_matches(t, s@),
            None => !target_valid(s@),
        },
{
    let len = s.len();
    if len == 0 {
        return None;
    }
    if len == 1 && s[0] == 42 {
        proof {
            assert(s@ =~= seq![42u8]);
        }
        return Some(RequestTarget::Asterisk);
    }
    proof {
        assert(s@ != seq![42u8]) by {
            if s@ == seq![42u8] {
                assert(s@.len() == 1 && s@[0] == 42);
            }
        }
    }
    if s[0] == 47 {
        return Some(RequestTarget::Origin(vstd::slice::slice_to_vec(s)));
    }
    match find_scheme_sep_at(s) {
        Some(k) => {
            proof {
                crate::util::lemma_find_scheme_sep(s@);
            }
            if k == 0 {
                return None;
            }
            let rest = &s[k + 3..len];
            match find_byte_at(rest, 47) {
                Some(j) => {
                    proof {
                        crate::util::lemma_find_byte(rest@, 47);
                    }
                    if j == 0 {
                        return None;
                    }
                    let authority = vstd::slice::slice_to_vec(&rest[0..j]);
                    let path = vstd::slice::slice_to_vec(&rest[j..rest.len()]);
                    proof {
                        assert(rest@.subrange(j as int, rest@.len() as int) =~= rest@.subrange(
                            j as int,
                            rest@.len() as int,
                        ));
                    }
                    Some(RequestTarget::Absolute { authority, path })
                },
                None => {
                    if rest.len() == 0 {
                        return None;
                    }
                    Some(
                        RequestTarget::Absolute {
                            authority: vstd::slice::slice_to_vec(rest),
                            path: Vec::new(),
                        },
                    )
                },
            }
        },
        None => Some(RequestTarget::Authority(vstd::slice::slice_to_vec(s))),
    }
}

} // verus!
