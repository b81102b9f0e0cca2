//! Dispatch to the native in-process handlers: each prefix bound to a
//! native backend owns one handler instance, and every verb call is routed
//! to it by prefix. The tagged union makes the dispatch total and explicit.

use vstd::prelude::*;

use crate::strutil::str_eq;
use crate::engine::contains_str;
use crate::manaprotocol::callee::AffectAction;
use crate::zeroinstall::spec_app_url;
use crate::zeroinstall::affect_action;
use vstd::string::StringExecFns;

verus! {

/// One native in-process handler.
pub enum NativeHandler {
    /// The app-catalog handler.
    Zeroinstall(crate::zeroinstall::Handler),
    /// The optional-feature handler.
    Winfeat(crate::winfeat::Handler),
}

/// What a native handler's `detect` answers for one path.
pub open spec fn spec_native_detect(h: &NativeHandler, path: Seq<char>) -> bool {
    match h {
        NativeHandler::Zeroinstall(z) => z.app_at(path) is Some,
        NativeHandler::Winfeat(w) => contains_str(w.feats_view(), path),
    }
}

/// The native handler bound to `prefix`, if any.
pub open spec fn spec_handler_for(
    hs: Seq<(String, NativeHandler)>,
    prefix: Seq<char>,
) -> Option<int>
    decreases hs.len(),
{
    if hs.len() == 0 {
        None
    } else if hs[0].0@ == prefix {
        Some(0)
    } else {
        match spec_handler_for(hs.drop_first(), prefix) {
            Some(i) => Some(i + 1),
            None => None,
        }
    }
}

/// The native handlers of one run, one per prefix that a native backend
/// owns.
pub struct RustHandlers {
    /// The handler per prefix, in binding order.
    pub map: Vec<(String, NativeHandler)>,
}

impl RustHandlers {
    /// Answer `detect` when a native handler owns the prefix; hand the call
    /// back otherwise.
    pub fn maybe_detect(&mut self, prefix: &str, subpath: &str) -> (r: Option<
        Result<bool, String>,
    >)
        ensures
            final(self).map@ == old(self).map@,
            match r {
                Some(res) => spec_handler_for(old(self).map@, prefix@) matches Some(i) && res
                    matches Ok(b) && b == spec_native_detect(&old(self).map@[i].1, subpath@),
                None => spec_handler_for(old(self).map@, prefix@) is None,
            },
    {
        let n = self.map.len();
        let mut i: usize = 0;
        proof {
            assert(self.map@.skip(0) =~= self.map@);
        }
        while i < n
            invariant
                n == self.map@.len(),
                i <= n,
                match spec_handler_for(self.map@.skip(i as int), prefix@) {
                    Some(k) => spec_handler_for(self.map@, prefix@) == Some(k + i),
                    None => spec_handler_for(self.map@, prefix@) is None,
                },
            decreases n - i,
        {
            proof {
                assert(self.map@.skip(i as int)[0] == self.map@[i as int]);
                assert(self.map@.skip(i as int).drop_first() =~= self.map@.skip(i as int + 1));
            }
            if str_eq(self.map[i].0.as_str(), prefix) {
                let found = match &self.map[i].1 {
                    NativeHandler::Zeroinstall(z) => z.detect_app(subpath),
                    NativeHandler::Winfeat(w) => w.detect_feat(subpath),
                };
                return Some(Ok(found));
            }
            i = i + 1;
        }
        None
    }

    /// Answer `gather` — the content that mirrors the resource — when a
    /// native handler owns the prefix.
    pub fn maybe_gather(&mut self, prefix: &str, subpath: &str) -> (r: Option<
        Result<String, String>,
    >)
        ensures
            final(self).map@ == old(self).map@,
            match r {
                Some(res) => spec_handler_for(old(self).map@, prefix@) matches Some(i)
                    && match old(self).map@[i].1 {
                    NativeHandler::Zeroinstall(z) => match z.app_at(subpath@) {
                        Some(x) => res matches Ok(c) && c@ == x,
                        None => res is Err,
                    },
                    NativeHandler::Winfeat(_) => res matches Ok(c) && c@ == Seq::<char>::empty(),
                },
                None => spec_handler_for(old(self).map@, prefix@) is None,
            },
    {
        let n = self.map.len();
        let mut i: usize = 0;
        proof {
            assert(self.map@.skip(0) =~= self.map@);
        }
        while i < n
            invariant
                n == self.map@.len(),
                i <= n,
                match spec_handler_for(self.map@.skip(i as int), prefix@) {
                    Some(k) => spec_handler_for(self.map@, prefix@) == Some(k + i),
                    None => spec_handler_for(self.map@, prefix@) is None,
                },
            decreases n - i,
        {
            proof {
                assert(self.map@.skip(i as int)[0] == self.map@[i as int]);
                assert(self.map@.skip(i as int).drop_first() =~= self.map@.skip(i as int + 1));
            }
            if str_eq(self.map[i].0.as_str(), prefix) {
                let res = match &self.map[i].1 {
                    NativeHandler::Zeroinstall(z) => {
                        let found = z.lookup_app(subpath);
                        match found {
                            Some(v) => Ok(v.clone()),
                            None => Err(String::from_str("no catalog entry for path")),
                        }
                    },
                    NativeHandler::Winfeat(_) => Ok(String::new()),
                };
                return Some(res);
            }
            i = i + 1;
        }
        None
    }

    /// Answer `affect` — the action pushing shadow state back — when a
    /// native handler owns the prefix.
    pub fn maybe_affect(&mut self, prefix: &str, subpath: &str, shadow_content: Option<&String>) -> (r:
        Option<Result<AffectAction, String>>)
        ensures
            final(self).map@ == old(self).map@,
            match r {
                Some(res) => spec_handler_for(old(self).map@, prefix@) matches Some(i)
                    && match old(self).map@[i].1 {
                    NativeHandler::Zeroinstall(_) => match res {
                        Ok(a) => subpath@.contains('/') && match a {
                            AffectAction::RemoveApp { url } => shadow_content is None && url@
                                == spec_app_url(subpath@),
                            AffectAction::ImportApp { url } => shadow_content is Some && url@
                                == spec_app_url(subpath@),
                        },
                        Err(_) => !subpath@.contains('/'),
                    },
                    NativeHandler::Winfeat(_) => res is Err,
                },
                None => spec_handler_for(old(self).map@, prefix@) is None,
            },
    {
        let n = self.map.len();
        let mut i: usize = 0;
        proof {
            assert(self.map@.skip(0) =~= self.map@);
        }
        while i < n
            invariant
                n == self.map@.len(),
                i <= n,
                match spec_handler_for(self.map@.skip(i as int), prefix@) {
                    Some(k) => spec_handler_for(self.map@, prefix@) == Some(k + i),
                    None => spec_handler_for(self.map@, prefix@) is None,
                },
            decreases n - i,
        {
            proof {
                assert(self.map@.skip(i as int)[0] == self.map@[i as int]);
                assert(self.map@.skip(i as int).drop_first() =~= self.map@.skip(i as int + 1));
            }
            if str_eq(self.map[i].0.as_str(), prefix) {
                let res = match &self.map[i].1 {
                    NativeHandler::Zeroinstall(_) => affect_action(subpath, shadow_content),
                    NativeHandler::Winfeat(_) => Err(
                        String::from_str("affecting optional features is not implemented"),
                    ),
                };
                return Some(res);
            }
            i = i + 1;
        }
        None
    }
}

} // verus!
