//! Whether a hook is skipped for a push: by a marker in the commit message, or
//! by a variable that came with the push.
use crate::text::{has_substring, str_contains, utf8_decode};
use vstd::prelude::*;
use vstd::utf8::*;

verus! {

/// A configured condition under which a hook is not run.
#[derive(Clone, Debug)]
pub enum HookBypass {
    /// The commit message contains this string.
    CommitMessage(String),
    /// The push carries variable `name`, whose bytes decode to `value`.
    Pushvar { name: String, value: String },
}

/// Configuration of one hook.
#[derive(Clone, Debug)]
pub struct HookConfig {
    pub bypass: Option<HookBypass>,
    /// Free-form string options handed to the hook body.
    pub strings: Vec<(String, String)>,
}

impl HookConfig {
    pub fn new(bypass: Option<HookBypass>) -> (r: HookConfig)
        ensures
            r.bypass == bypass,
            r.strings@.len() == 0,
    {
        HookConfig { bypass, strings: Vec::new() }
    }
}

/// A variable that came with a push: a name and raw bytes.
pub struct PushVar {
    pub name: String,
    pub value: Vec<u8>,
}

impl PushVar {
    pub fn new(name: String, value: Vec<u8>) -> (r: PushVar)
        ensures
            r.name == name,
            r.value == value,
    {
        PushVar { name, value }
    }
}

/// The bytes of the last variable called `name`, if any.
pub open spec fn pushvar_value(vars: Seq<PushVar>, name: Seq<char>) -> Option<Seq<u8>>
    decreases vars.len(),
{
    if vars.len() == 0 {
        None
    } else if vars.last().name@ == name {
        Some(vars.last().value@)
    } else {
        pushvar_value(vars.drop_last(), name)
    }
}

pub open spec fn is_bypassed(
    bypass: HookBypass,
    msg: Seq<char>,
    pushvars: Option<Seq<PushVar>>,
) -> bool {
    match bypass {
        HookBypass::CommitMessage(marker) => has_substring(msg, marker@),
        HookBypass::Pushvar { name, value } => match pushvars {
            Some(vars) => match pushvar_value(vars, name@) {
                Some(bytes) => valid_utf8(bytes) && decode_utf8(bytes) == value@,
                None => false,
            },
            None => false,
        },
    }
}

/// A hook with this configuration is skipped for this message and push.
pub open spec fn config_bypassed(
    config: HookConfig,
    msg: Seq<char>,
    pushvars: Option<Seq<PushVar>>,
) -> bool {
    match config.bypass {
        Some(b) => is_bypassed(b, msg, pushvars),
        None => false,
    }
}

pub open spec fn pushvars_view(v: Option<&Vec<PushVar>>) -> Option<Seq<PushVar>> {
    match v {
        Some(vars) => Some(vars@),
        None => None,
    }
}

pub fn find_pushvar<'a>(vars: &'a Vec<PushVar>, name: &String) -> (r: Option<&'a Vec<u8>>)
    ensures
        match r {
            Some(v) => pushvar_value(vars@, name@) == Some(v@),
            None => pushvar_value(vars@, name@) is None,
        },
{
    let mut i: usize = vars.len();
    proof {
        assert(vars@.subrange(0, i as int) =~= vars@);
    }
    while i > 0
        invariant
            i <= vars@.len(),
            pushvar_value(vars@, name@) == pushvar_value(vars@.subrange(0, i as int), name@),
        decreases i,
    {
        proof {
            assert(vars@.subrange(0, i as int).drop_last() =~= vars@.subrange(0, i - 1));
        }
        if vars[i - 1].name == *name {
            return Some(&vars[i - 1].value);
        }
        i = i - 1;
    }
    None
}

/// Decides whether the hook guarded by `bypass` is skipped.
pub fn is_hook_bypassed(
    bypass: &HookBypass,
    cs_msg: &String,
    maybe_pushvars: Option<&Vec<PushVar>>,
) -> (r: bool)
    ensures
        r == is_bypassed(
            *bypass,
            cs_msg@,
            pushvars_view(maybe_pushvars),
        ),
{
    match bypass {
        HookBypass::CommitMessage(marker) => str_contains(cs_msg.as_str(), marker.as_str()),
        HookBypass::Pushvar { name, value } => match maybe_pushvars {
            Some(vars) => match find_pushvar(vars, name) {
                Some(bytes) => match utf8_decode(bytes) {
                    Some(decoded) => decoded == *value,
                    None => false,
                },
                None => false,
            },
            None => false,
        },
    }
}

/// Decides whether a hook with `config` is skipped.
pub fn is_config_bypassed(
    config: &HookConfig,
    cs_msg: &String,
    maybe_pushvars: Option<&Vec<PushVar>>,
) -> (r: bool)
    ensures
        r == config_bypassed(
            *config,
            cs_msg@,
            pushvars_view(maybe_pushvars),
        ),
{
    match &config.bypass {
        Some(b) => is_hook_bypassed(b, cs_msg, maybe_pushvars),
        None => false,
    }
}

} // verus!
