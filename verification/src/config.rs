//! Launcher entries as read from the configuration, their validity rules,
//! and the plan for executing a chosen entry.

use vstd::prelude::*;
use crate::text::eq_chars;
use crate::text::str_chars;

verus! {

/// One launcher entry: what to run, how to show it, and under which
/// conditions it is offered.
#[derive(Debug, PartialEq, Clone)]
pub struct RaffiConfig {
    pub binary: Option<String>,
    pub args: Option<Vec<String>>,
    pub icon: Option<String>,
    pub description: Option<String>,
    pub ifenveq: Option<Vec<String>>,
    pub ifenvset: Option<String>,
    pub ifenvnotset: Option<String>,
    pub ifexist: Option<String>,
    pub disabled: Option<bool>,
    pub script: Option<String>,
}

/// The specification view of an entry.
pub ghost struct CfgV {
    pub binary: Option<Seq<char>>,
    pub args: Option<Seq<Seq<char>>>,
    pub icon: Option<Seq<char>>,
    pub description: Option<Seq<char>>,
    pub ifenveq: Option<Seq<Seq<char>>>,
    pub ifenvset: Option<Seq<char>>,
    pub ifenvnotset: Option<Seq<char>>,
    pub ifexist: Option<Seq<char>>,
    pub disabled: Option<bool>,
    pub script: Option<Seq<char>>,
}

/// The view of an optional string.
pub open spec fn opt_view(o: Option<String>) -> Option<Seq<char>> {
    match o {
        Some(s) => Some(s@),
        None => None,
    }
}

/// The view of an optional string list.
pub open spec fn opt_list_view(o: Option<Vec<String>>) -> Option<Seq<Seq<char>>> {
    match o {
        Some(v) => Some(v.deep_view()),
        None => None,
    }
}

impl View for RaffiConfig {
    type V = CfgV;

    open spec fn view(&self) -> CfgV {
        CfgV {
            binary: opt_view(self.binary),
            args: opt_list_view(self.args),
            icon: opt_view(self.icon),
            description: opt_view(self.description),
            ifenveq: opt_list_view(self.ifenveq),
            ifenvset: opt_view(self.ifenvset),
            ifenvnotset: opt_view(self.ifenvnotset),
            ifexist: opt_view(self.ifexist),
            disabled: self.disabled,
            script: opt_view(self.script),
        }
    }
}

impl Default for RaffiConfig {
    /// An entry with nothing set.
    fn default() -> (r: RaffiConfig)
        ensures
            r@ == (CfgV {
                binary: None,
                args: None,
                icon: None,
                description: None,
                ifenveq: None,
                ifenvset: None,
                ifenvnotset: None,
                ifexist: None,
                disabled: None,
                script: None,
            }),
    {
        RaffiConfig {
            binary: None,
            args: None,
            icon: None,
            description: None,
            ifenveq: None,
            ifenvset: None,
            ifenvnotset: None,
            ifexist: None,
            disabled: None,
            script: None,
        }
    }
}

/// Command-line options of the launcher.
#[derive(Debug, Clone)]
pub struct Args {
    pub help: bool,
    pub version: bool,
    pub configfile: Option<String>,
    pub print_only: bool,
    pub refresh_cache: bool,
    pub no_icons: bool,
    pub default_script_shell: String,
}

/// Answers what an environment variable is set to.
pub trait EnvProvider {
    /// What the provider would answer for a name.
    open spec fn var_spec(&self, key: Seq<char>) -> Option<Seq<char>> {
        None
    }

    /// Look a variable up; `None` when it is unset.
    fn var(&self, key: &str) -> (r: Option<String>)
        ensures
            match r {
                Some(s) => self.var_spec(key@) == Some(s@),
                None => self.var_spec(key@) is None,
            },
    ;
}

/// An environment snapshot held as plain pairs.
pub struct DefaultEnvProvider {
    pub vars: Vec<(String, String)>,
}

/// The first value recorded for a name.
pub open spec fn env_lookup(v: Seq<(Seq<char>, Seq<char>)>, key: Seq<char>) -> Option<Seq<char>>
    decreases v.len(),
{
    if v.len() == 0 {
        None
    } else if v[0].0 == key {
        Some(v[0].1)
    } else {
        env_lookup(v.drop_first(), key)
    }
}

impl EnvProvider for DefaultEnvProvider {
    open spec fn var_spec(&self, key: Seq<char>) -> Option<Seq<char>> {
        env_lookup(self.vars.deep_view(), key)
    }

    fn var(&self, key: &str) -> (r: Option<String>) {
        let kc = str_chars(key);
        proof {
            assert(self.vars.deep_view().subrange(0, self.vars.deep_view().len() as int)
                =~= self.vars.deep_view());
        }
        let mut i: usize = 0;
        while i < self.vars.len()
            invariant
                i <= self.vars@.len(),
                kc@ == key@,
                env_lookup(self.vars.deep_view(), key@) == env_lookup(
                    self.vars.deep_view().subrange(i as int, self.vars.deep_view().len() as int),
                    key@,
                ),
            decreases self.vars@.len() - i,
        {
            proof {
                let dv = self.vars.deep_view();
                let tail = dv.subrange(i as int, dv.len() as int);
                assert(tail[0] == dv[i as int]);
                assert(dv[i as int] == (self.vars@[i as int].0@, self.vars@[i as int].1@));
                assert(tail.drop_first() =~= dv.subrange(i + 1, dv.len() as int));
            }
            let name = str_chars(self.vars[i].0.as_str());
            if eq_chars(name.as_slice(), kc.as_slice()) {
                return Some(self.vars[i].1.clone());
            }
            i += 1;
        }
        proof {
            let dv = self.vars.deep_view();
            assert(dv.subrange(dv.len() as int, dv.len() as int).len() == 0);
        }
        None
    }
}

/// Answers whether a program can be run.
pub trait BinaryChecker {
    /// What the checker would answer for a name.
    open spec fn exists_spec(&self, binary: Seq<char>) -> bool {
        false
    }

    /// Whether the named program exists.
    fn binary_exists(&self, binary: &str) -> (r: bool)
        ensures
            r == self.exists_spec(binary@),
    ;
}

/// A checker over a fixed list of available programs.
pub struct DefaultBinaryChecker {
    pub binaries: Vec<String>,
}

impl BinaryChecker for DefaultBinaryChecker {
    open spec fn exists_spec(&self, binary: Seq<char>) -> bool {
        self.binaries.deep_view().contains(binary)
    }

    fn binary_exists(&self, binary: &str) -> (r: bool) {
        let bc = str_chars(binary);
        let mut i: usize = 0;
        while i < self.binaries.len()
            invariant
                i <= self.binaries@.len(),
                bc@ == binary@,
                forall|j: int| 0 <= j < i ==> self.binaries.deep_view()[j] != binary@,
            decreases self.binaries@.len() - i,
        {
            let name = str_chars(self.binaries[i].as_str());
            proof {
                assert(self.binaries.deep_view()[i as int] == self.binaries@[i as int]@);
            }
            if eq_chars(name.as_slice(), bc.as_slice()) {
                proof {
                    assert(self.binaries.deep_view().contains(binary@));
                }
                return true;
            }
            i += 1;
        }
        proof {
            if self.binaries.deep_view().contains(binary@) {
                let j = choose|j: int|
                    0 <= j < self.binaries.deep_view().len() && self.binaries.deep_view()[j]
                        == binary@;
                assert(false);
            }
        }
        false
    }
}

/// The entry's program condition: a script needs its interpreter, a
/// binary must exist, and an entry with neither is carried by its
/// description alone.
pub open spec fn program_ok<B: BinaryChecker>(c: CfgV, default_shell: Seq<char>, bc: &B) -> bool {
    if c.script is Some {
        bc.exists_spec(
            match c.binary {
                Some(b) => b,
                None => default_shell,
            },
        )
    } else if c.binary is Some {
        bc.exists_spec(c.binary->Some_0)
    } else {
        c.description is Some
    }
}

/// The entry's environment conditions.
pub open spec fn env_ok<E: EnvProvider, B: BinaryChecker>(c: CfgV, env: &E, bc: &B) -> bool {
    (match c.ifenveq {
        Some(eq) => eq.len() == 2 && (match env.var_spec(eq[0]) {
            Some(v) => v == eq[1],
            None => eq[1].len() == 0,
        }),
        None => true,
    }) && (match c.ifenvset {
        Some(v) => env.var_spec(v) is Some,
        None => true,
    }) && (match c.ifenvnotset {
        Some(v) => env.var_spec(v) is None,
        None => true,
    }) && (match c.ifexist {
        Some(b) => bc.exists_spec(b),
        None => true,
    })
}

/// Whether the entry is offered at all.
pub open spec fn valid_spec<E: EnvProvider, B: BinaryChecker>(
    c: CfgV,
    default_shell: Seq<char>,
    env: &E,
    bc: &B,
) -> bool {
    program_ok(c, default_shell, bc) && env_ok(c, env, bc)
}

/// The entry after validation: one without a program but with a
/// description gets the description as its program name.
pub open spec fn validated_cfg(c: CfgV) -> CfgV {
    if c.script is None && c.binary is None && c.description is Some {
        CfgV { binary: c.description, ..c }
    } else {
        c
    }
}

/// Decide whether an entry is offered; an entry named only by its
/// description gets that description as its program name.
pub fn is_valid_config<E: EnvProvider, B: BinaryChecker>(
    mc: &mut RaffiConfig,
    args: &Args,
    env_provider: &E,
    binary_checker: &B,
) -> (r: bool)
    ensures
        r == valid_spec(old(mc)@, args.default_script_shell@, env_provider, binary_checker),
        final(mc)@ == validated_cfg(old(mc)@),
{
    let program_ok: bool;
    if mc.script.is_some() {
        let name: &str = match &mc.binary {
            Some(b) => b.as_str(),
            None => args.default_script_shell.as_str(),
        };
        program_ok = binary_checker.binary_exists(name);
    } else if mc.binary.is_some() {
        let name: &str = match &mc.binary {
            Some(b) => b.as_str(),
            None => "",
        };
        program_ok = binary_checker.binary_exists(name);
    } else if mc.description.is_some() {
        let d = match &mc.description {
            Some(d) => d.clone(),
            None => String::new(),
        };
        mc.binary = Some(d);
        program_ok = true;
    } else {
        return false;
    }
    if !program_ok {
        return false;
    }
    let eq_ok: bool = match &mc.ifenveq {
        Some(eq) => {
            if eq.len() == 2 {
                proof {
                    assert(eq.deep_view()[0] == eq@[0]@);
                    assert(eq.deep_view()[1] == eq@[1]@);
                }
                match env_provider.var(eq[0].as_str()) {
                    Some(v) => {
                        let a = str_chars(v.as_str());
                        let b = str_chars(eq[1].as_str());
                        eq_chars(a.as_slice(), b.as_slice())
                    },
                    None => eq[1].as_str().unicode_len() == 0,
                }
            } else {
                false
            }
        },
        None => true,
    };
    let set_ok: bool = match &mc.ifenvset {
        Some(v) => env_provider.var(v.as_str()).is_some(),
        None => true,
    };
    let notset_ok: bool = match &mc.ifenvnotset {
        Some(v) => env_provider.var(v.as_str()).is_none(),
        None => true,
    };
    let exist_ok: bool = match &mc.ifexist {
        Some(b) => binary_checker.binary_exists(b.as_str()),
        None => true,
    };
    eq_ok && set_ok && notset_ok && exist_ok
}

/// The first entry whose description or program name reads `chosen`.
pub open spec fn cfg_matches_name(c: CfgV, chosen: Seq<char>) -> bool {
    c.description == Some(chosen) || c.binary == Some(chosen)
}

/// Find the entry a front-end selection names.
pub fn find_config_index(configs: &[RaffiConfig], chosen: &str) -> (r: Option<usize>)
    ensures
        match r {
            Some(i) => 0 <= i < configs@.len() && cfg_matches_name(
                configs@[i as int]@,
                chosen@,
            ) && (forall|j: int| 0 <= j < i ==> !cfg_matches_name(configs@[j]@, chosen@)),
            None => forall|j: int|
                0 <= j < configs@.len() ==> !cfg_matches_name(configs@[j]@, chosen@),
        },
{
    let cc = str_chars(chosen);
    let mut i: usize = 0;
    while i < configs.len()
        invariant
            i <= configs@.len(),
            cc@ == chosen@,
            forall|j: int| 0 <= j < i ==> !cfg_matches_name(configs@[j]@, chosen@),
        decreases configs@.len() - i,
    {
        let hit: bool = match &configs[i].description {
            Some(d) => {
                let dc = str_chars(d.as_str());
                eq_chars(dc.as_slice(), cc.as_slice())
            },
            None => false,
        };
        let hit2: bool = match &configs[i].binary {
            Some(b) => {
                let bc = str_chars(b.as_str());
                eq_chars(bc.as_slice(), cc.as_slice())
            },
            None => false,
        };
        if hit || hit2 {
            return Some(i);
        }
        i += 1;
    }
    None
}

} // verus!
