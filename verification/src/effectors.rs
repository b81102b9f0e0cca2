//! The effector registry: at startup every managed prefix is bound to
//! exactly one backend, classified from its command by a fixed precedence
//! (embedded-script binding shape first, then known native names, then known
//! child-process names). Afterwards the registry plans each `detect`,
//! `gather`, and `affect` call: it resolves the prefix, rewrites the
//! shadow-side path as `shadow_root/prefix/subpath`, and hands back what to
//! send or invoke. Performing the call — spawning, writing, reading — is the
//! caller's business.

use vstd::prelude::*;
use vstd::string::StrSliceExecFns;
use vstd::string::StringExecFns;

use crate::strutil::str_eq;
use crate::strutil::lex_lt;
use crate::script::strict_sorted;
use crate::config::spec_join_dir;
use crate::config::join_dir;
use crate::percent::enc_chars;
use crate::protocol::format_detect_request;
use crate::protocol::format_gather_request;
use crate::protocol::format_affect_request;

verus! {

/// Which backend hosts one prefix's effector.
pub enum BackendKind {
    /// An embedded-script binding: the script source path and the arguments
    /// its `init` function is called with.
    Embedded { script: String, args: Vec<String> },
    /// A native in-process implementation, selected by name.
    Native { name: String },
    /// A child-process-hosted effector, selected by name, with the
    /// arguments its process is spawned with.
    Child { name: String, args: Vec<String> },
}

/// The view of a backend kind: its strings as character sequences.
pub enum BackendKindV {
    Embedded { script: Seq<char>, args: Seq<Seq<char>> },
    Native { name: Seq<char> },
    Child { name: Seq<char>, args: Seq<Seq<char>> },
}

impl View for BackendKind {
    type V = BackendKindV;

    open spec fn view(&self) -> BackendKindV {
        match self {
            BackendKind::Embedded { script, args } => BackendKindV::Embedded {
                script: script@,
                args: args.deep_view(),
            },
            BackendKind::Native { name } => BackendKindV::Native { name: name@ },
            BackendKind::Child { name, args } => BackendKindV::Child {
                name: name@,
                args: args.deep_view(),
            },
        }
    }
}

/// The names recognized as child-process-hosted effectors.
pub open spec fn is_child_name(s: Seq<char>) -> bool {
    s == "*lua"@ || s == "*scp"@ || s == "*zeroinstall"@
}

/// The names recognized as native in-process implementations.
pub open spec fn is_native_name(s: Seq<char>) -> bool {
    s == "zeroinstall"@
}

/// How a binding command selects its backend: an embedded-script binding is
/// `lua53` followed by a script path and optional arguments; a single
/// recognized native name selects the in-process implementation; a
/// recognized child name selects a subprocess. Anything else is not a
/// backend.
pub open spec fn spec_classify(cmd: Seq<Seq<char>>) -> Option<BackendKindV> {
    if cmd.len() >= 2 && cmd[0] == "lua53"@ {
        Some(BackendKindV::Embedded { script: cmd[1], args: cmd.skip(2) })
    } else if cmd.len() == 1 && is_native_name(cmd[0]) {
        Some(BackendKindV::Native { name: cmd[0] })
    } else if cmd.len() >= 1 && is_child_name(cmd[0]) {
        Some(BackendKindV::Child { name: cmd[0], args: cmd.skip(1) })
    } else {
        None
    }
}

/// Classify one binding command, total and side-effect-free, exactly as
/// [`spec_classify`] describes.
pub fn classify_command(cmd: &Vec<String>) -> (r: Option<BackendKind>)
    ensures
        match r {
            Some(b) => spec_classify(cmd.deep_view()) == Some(b@),
            None => spec_classify(cmd.deep_view()) is None,
        },
{
    let n = cmd.len();
    proof {
        assert(cmd.deep_view().len() == n) by {
            assert(cmd.deep_view() =~= cmd@.map_values(|s: String| s@));
        }
        if n > 0 {
            assert(cmd.deep_view()[0] == cmd@[0]@);
        }
        if n > 1 {
            assert(cmd.deep_view()[1] == cmd@[1]@);
        }
    }
    if n >= 2 && str_eq(cmd[0].as_str(), "lua53") {
        let script = cmd[1].clone();
        let mut args: Vec<String> = Vec::new();
        let mut i: usize = 2;
        while i < n
            invariant
                n == cmd@.len(),
                2 <= i <= n,
                args@.len() == i - 2,
                forall|j: int| 0 <= j < i - 2 ==> #[trigger] args@[j]@ == cmd@[j + 2]@,
            decreases n - i,
        {
            args.push(cmd[i].clone());
            i = i + 1;
        }
        proof {
            assert(args.deep_view() =~= cmd.deep_view().skip(2)) by {
                assert(forall|j: int|
                    0 <= j < args@.len() ==> #[trigger] args.deep_view()[j] == args@[j]@);
                assert(forall|j: int|
                    0 <= j < cmd@.len() ==> #[trigger] cmd.deep_view()[j] == cmd@[j]@);
            }
        }
        return Some(BackendKind::Embedded { script, args });
    }
    if n == 1 && str_eq(cmd[0].as_str(), "zeroinstall") {
        return Some(BackendKind::Native { name: cmd[0].clone() });
    }
    if n >= 1 && (str_eq(cmd[0].as_str(), "*lua") || str_eq(cmd[0].as_str(), "*scp") || str_eq(
        cmd[0].as_str(),
        "*zeroinstall",
    )) {
        let name = cmd[0].clone();
        let mut args: Vec<String> = Vec::new();
        let mut i: usize = 1;
        while i < n
            invariant
                n == cmd@.len(),
                1 <= i <= n,
                args@.len() == i - 1,
                forall|j: int| 0 <= j < i - 1 ==> #[trigger] args@[j]@ == cmd@[j + 1]@,
            decreases n - i,
        {
            args.push(cmd[i].clone());
            i = i + 1;
        }
        proof {
            assert(args.deep_view() =~= cmd.deep_view().skip(1)) by {
                assert(forall|j: int|
                    0 <= j < args@.len() ==> #[trigger] args.deep_view()[j] == args@[j]@);
                assert(forall|j: int|
                    0 <= j < cmd@.len() ==> #[trigger] cmd.deep_view()[j] == cmd@[j]@);
            }
        }
        return Some(BackendKind::Child { name, args });
    }
    proof {
        if cmd.deep_view().len() >= 1 {
            assert(cmd.deep_view()[0] == cmd@[0]@);
        }
    }
    None
}

/// Why the registry refuses a configuration or a call.
#[derive(Debug)]
pub enum EffectorsError {
    /// A binding's command selects no known backend; carries the command.
    UnknownCommand(Vec<String>),
    /// No effector is bound for the carried prefix.
    NotFound(String),
}

/// The backend bound to `prefix`, if any.
pub open spec fn spec_binding(
    bs: Seq<(String, BackendKind)>,
    prefix: Seq<char>,
) -> Option<BackendKind>
    decreases bs.len(),
{
    if bs.len() == 0 {
        None
    } else if bs[0].0@ == prefix {
        Some(bs[0].1)
    } else {
        spec_binding(bs.drop_first(), prefix)
    }
}

/// The effector registry: exactly one backend per managed prefix, built
/// once at startup from the script's bindings.
pub struct Effectors {
    /// The backend per prefix, strictly sorted by prefix.
    pub bindings: Vec<(String, BackendKind)>,
}

/// What one planned effector call is: a line for the prefix's child
/// process, a method call on its embedded-script handle, or an invocation
/// of a native implementation.
pub enum EffectorCall {
    /// Send this request line to the child process bound to the prefix and
    /// read one response line.
    ChildLine(String),
    /// Call this method, with these arguments, on the embedded-script
    /// handle bound to the prefix.
    EmbeddedCall { method: String, args: Vec<String> },
    /// Invoke the named native implementation with the resolved subpath and
    /// shadow prefix.
    Native { name: String },
}

impl Effectors {
    /// The prefixes the registry binds, in stored order.
    pub open spec fn keys(&self) -> Seq<Seq<char>> {
        self.bindings@.map_values(|p: (String, BackendKind)| p.0@)
    }

    /// A well-formed registry: bindings strictly sorted by prefix.
    pub open spec fn wf(&self) -> bool {
        strict_sorted(self.keys())
    }

    /// Build the registry from the script's bindings: classify every
    /// command, and fail fast on the first command that selects no known
    /// backend — partial startup is not a supported state.
    pub fn init(spec: &crate::script::Effectors) -> (r: Result<Effectors, EffectorsError>)
        requires
            strict_sorted(spec@.map_values(|p: (String, Vec<String>)| p.0@)),
        ensures
            match r {
                Ok(e) => {
                    &&& e.wf()
                    &&& e.bindings@.len() == spec@.len()
                    &&& forall|i: int|
                        0 <= i < spec@.len() ==> #[trigger] e.bindings@[i].0@ == spec@[i].0@
                            && Some(e.bindings@[i].1@) == spec_classify(spec@[i].1.deep_view())
                },
                Err(EffectorsError::UnknownCommand(cmd)) => exists|i: int|
                    0 <= i < spec@.len() && spec_classify((#[trigger] spec@[i]).1.deep_view())
                        is None && cmd.deep_view() == spec@[i].1.deep_view() && forall|j: int|
                        0 <= j < i ==> spec_classify((#[trigger] spec@[j]).1.deep_view()) is Some,
                Err(EffectorsError::NotFound(_)) => false,
            },
    {
        let n = spec.len();
        let mut bindings: Vec<(String, BackendKind)> = Vec::new();
        let mut i: usize = 0;
        while i < n
            invariant
                n == spec@.len(),
                i <= n,
                bindings@.len() == i,
                forall|j: int|
                    0 <= j < i ==> #[trigger] bindings@[j].0@ == spec@[j].0@ && Some(
                        bindings@[j].1@,
                    ) == spec_classify(spec@[j].1.deep_view()),
                forall|j: int|
                    0 <= j < i ==> spec_classify((#[trigger] spec@[j]).1.deep_view()) is Some,
            decreases n - i,
        {
            match classify_command(&spec[i].1) {
                Some(b) => {
                    bindings.push((spec[i].0.clone(), b));
                },
                None => {
                    return Err(EffectorsError::UnknownCommand(spec[i].1.clone()));
                },
            }
            i = i + 1;
        }
        let e = Effectors { bindings };
        proof {
            assert forall|a: int, b: int| 0 <= a < b < e.keys().len() implies lex_lt(
                #[trigger] e.keys()[a],
                #[trigger] e.keys()[b],
            ) by {
                assert(e.keys()[a] == e.bindings@[a].0@);
                assert(e.keys()[b] == e.bindings@[b].0@);
                let sk = spec@.map_values(|p: (String, Vec<String>)| p.0@);
                assert(sk[a] == spec@[a].0@);
                assert(sk[b] == spec@[b].0@);
                assert(lex_lt(sk[a], sk[b]));
            }
        }
        Ok(e)
    }

    /// The backend bound to `prefix`, or the not-found error naming the
    /// prefix.
    pub fn for_prefix(&self, prefix: &str) -> (r: Result<&BackendKind, EffectorsError>)
        ensures
            match r {
                Ok(b) => spec_binding(self.bindings@, prefix@) == Some(*b),
                Err(EffectorsError::NotFound(p)) => spec_binding(self.bindings@, prefix@) is None
                    && p@ == prefix@,
                Err(EffectorsError::UnknownCommand(_)) => false,
            },
    {
        let n = self.bindings.len();
        let mut i: usize = 0;
        proof {
            assert(self.bindings@.skip(0) =~= self.bindings@);
        }
        while i < n
            invariant
                n == self.bindings@.len(),
                i <= n,
                spec_binding(self.bindings@, prefix@) == spec_binding(
                    self.bindings@.skip(i as int),
                    prefix@,
                ),
            decreases n - i,
        {
            proof {
                assert(self.bindings@.skip(i as int)[0] == self.bindings@[i as int]);
                assert(self.bindings@.skip(i as int).drop_first() =~= self.bindings@.skip(
                    i as int + 1,
                ));
            }
            if str_eq(self.bindings[i].0.as_str(), prefix) {
                return Ok(&self.bindings[i].1);
            }
            i = i + 1;
        }
        Err(EffectorsError::NotFound(String::from_str(prefix)))
    }

    /// Plan a `detect` call for one managed path: a `detect` request line
    /// for a child backend, an `exists` call for an embedded one, or the
    /// native invocation.
    pub fn detect_plan(&self, prefix: &str, subpath: &str) -> (r: Result<
        EffectorCall,
        EffectorsError,
    >)
        ensures
            match r {
                Ok(c) => spec_binding(self.bindings@, prefix@) is Some && match c {
                    EffectorCall::ChildLine(line) => spec_binding(self.bindings@, prefix@)
                        matches Some(BackendKind::Child { .. }) && line@ == "detect "@ + enc_chars(
                        subpath@,
                    ),
                    EffectorCall::EmbeddedCall { method, args } => spec_binding(
                        self.bindings@,
                        prefix@,
                    ) matches Some(BackendKind::Embedded { .. }) && method@ == "exists"@
                        && args.deep_view() == seq![subpath@],
                    EffectorCall::Native { name } => spec_binding(self.bindings@, prefix@)
                        matches Some(BackendKind::Native { name: n }) && name@ == n@,
                },
                Err(EffectorsError::NotFound(p)) => spec_binding(self.bindings@, prefix@) is None
                    && p@ == prefix@,
                Err(EffectorsError::UnknownCommand(_)) => false,
            },
    {
        let b = self.for_prefix(prefix)?;
        match b {
            BackendKind::Child { .. } => Ok(EffectorCall::ChildLine(format_detect_request(subpath))),
            BackendKind::Embedded { .. } => {
                let mut args: Vec<String> = Vec::new();
                args.push(String::from_str(subpath));
                proof {
                    assert(args.deep_view() =~= seq![subpath@]);
                }
                Ok(EffectorCall::EmbeddedCall { method: String::from_str("exists"), args })
            },
            BackendKind::Native { name } => Ok(EffectorCall::Native { name: name.clone() }),
        }
    }

    /// Plan a `gather` call for one managed path. The shadow-side location
    /// is always derived by the registry — `shadow_root/prefix` for the
    /// child protocol, `shadow_root/prefix/subpath` for an embedded `query`
    /// — so backends never compute it themselves.
    pub fn gather_plan(&self, prefix: &str, subpath: &str, shadow_root: &str) -> (r: Result<
        EffectorCall,
        EffectorsError,
    >)
        ensures
            match r {
                Ok(c) => spec_binding(self.bindings@, prefix@) is Some && match c {
                    EffectorCall::ChildLine(line) => spec_binding(self.bindings@, prefix@)
                        matches Some(BackendKind::Child { .. }) && line@ == "gather "@ + enc_chars(
                        subpath@,
                    ) + " "@ + enc_chars(spec_join_dir(shadow_root@, prefix@)),
                    EffectorCall::EmbeddedCall { method, args } => spec_binding(
                        self.bindings@,
                        prefix@,
                    ) matches Some(BackendKind::Embedded { .. }) && method@ == "query"@
                        && args.deep_view() == seq![
                        subpath@,
                        spec_join_dir(spec_join_dir(shadow_root@, prefix@), subpath@),
                    ],
                    EffectorCall::Native { name } => spec_binding(self.bindings@, prefix@)
                        matches Some(BackendKind::Native { name: n }) && name@ == n@,
                },
                Err(EffectorsError::NotFound(p)) => spec_binding(self.bindings@, prefix@) is None
                    && p@ == prefix@,
                Err(EffectorsError::UnknownCommand(_)) => false,
            },
    {
        let b = self.for_prefix(prefix)?;
        match b {
            BackendKind::Child { .. } => {
                let shadow_prefix = join_dir(shadow_root, prefix);
                Ok(EffectorCall::ChildLine(format_gather_request(subpath, shadow_prefix.as_str())))
            },
            BackendKind::Embedded { .. } => {
                let shadow_prefix = join_dir(shadow_root, prefix);
                let shadow_path = join_dir(shadow_prefix.as_str(), subpath);
                let mut args: Vec<String> = Vec::new();
                args.push(String::from_str(subpath));
                args.push(shadow_path);
                proof {
                    assert(args.deep_view() =~= seq![
                        subpath@,
                        spec_join_dir(spec_join_dir(shadow_root@, prefix@), subpath@),
                    ]);
                }
                Ok(EffectorCall::EmbeddedCall { method: String::from_str("query"), args })
            },
            BackendKind::Native { name } => Ok(EffectorCall::Native { name: name.clone() }),
        }
    }

    /// Plan an `affect` call for one managed path; the shadow-side location
    /// is derived exactly as for `gather`.
    pub fn affect_plan(&self, prefix: &str, subpath: &str, shadow_root: &str) -> (r: Result<
        EffectorCall,
        EffectorsError,
    >)
        ensures
            match r {
                Ok(c) => spec_binding(self.bindings@, prefix@) is Some && match c {
                    EffectorCall::ChildLine(line) => spec_binding(self.bindings@, prefix@)
                        matches Some(BackendKind::Child { .. }) && line@ == "affect "@ + enc_chars(
                        subpath@,
                    ) + " "@ + enc_chars(spec_join_dir(shadow_root@, prefix@)),
                    EffectorCall::EmbeddedCall { method, args } => spec_binding(
                        self.bindings@,
                        prefix@,
                    ) matches Some(BackendKind::Embedded { .. }) && method@ == "apply"@
                        && args.deep_view() == seq![
                        subpath@,
                        spec_join_dir(spec_join_dir(shadow_root@, prefix@), subpath@),
                    ],
                    EffectorCall::Native { name } => spec_binding(self.bindings@, prefix@)
                        matches Some(BackendKind::Native { name: n }) && name@ == n@,
                },
                Err(EffectorsError::NotFound(p)) => spec_binding(self.bindings@, prefix@) is None
                    && p@ == prefix@,
                Err(EffectorsError::UnknownCommand(_)) => false,
            },
    {
        let b = self.for_prefix(prefix)?;
        match b {
            BackendKind::Child { .. } => {
                let shadow_prefix = join_dir(shadow_root, prefix);
                Ok(EffectorCall::ChildLine(format_affect_request(subpath, shadow_prefix.as_str())))
            },
            BackendKind::Embedded { .. } => {
                let shadow_prefix = join_dir(shadow_root, prefix);
                let shadow_path = join_dir(shadow_prefix.as_str(), subpath);
                let mut args: Vec<String> = Vec::new();
                args.push(String::from_str(subpath));
                args.push(shadow_path);
                proof {
                    assert(args.deep_view() =~= seq![
                        subpath@,
                        spec_join_dir(spec_join_dir(shadow_root@, prefix@), subpath@),
                    ]);
                }
                Ok(EffectorCall::EmbeddedCall { method: String::from_str("apply"), args })
            },
            BackendKind::Native { name } => Ok(EffectorCall::Native { name: name.clone() }),
        }
    }
}

} // verus!
