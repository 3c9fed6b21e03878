//! Skill manifests: the `[skill]`, `[capabilities]` and `[tool]` sections of
//! a skill's manifest file, parsed and validated.

use vstd::prelude::*;
use vstd::string::*;

use crate::config::model_get_str;
use crate::config::model_get_str_list;
use crate::config::parse_toml;
use crate::config::parse_toml_spec;
use crate::config::TomlValueModel;

verus! {

/// The sections of a parsed configuration document, as a mathematical value.
pub type DocModel = Seq<(Seq<char>, Seq<(Seq<char>, TomlValueModel)>)>;

/// One declared tool parameter.
#[derive(Debug)]
pub struct SkillParam {
    pub name: String,
    pub param_type: String,
    pub description: String,
    pub required: bool,
}

/// A skill's manifest: identity, advisory capabilities, and the tool it
/// contributes.
#[derive(Debug)]
pub struct SkillManifest {
    pub name: String,
    pub version: String,
    pub description: String,
    pub binary: String,
    pub cap_network: bool,
    pub cap_file_read: Vec<String>,
    pub cap_file_write: Vec<String>,
    pub cap_commands: Vec<String>,
    pub tool_name: String,
    pub tool_description: String,
    pub parameters: Vec<SkillParam>,
}

// ── What a manifest means ───────────────────────────────────────────────────

pub open spec fn is_word_char(c: char) -> bool {
    ||| 48 <= c as u32 <= 57
    ||| 65 <= c as u32 <= 90
    ||| 97 <= c as u32 <= 122
    ||| c == '_'
}

/// Tool names are ASCII letters, digits and underscores.
pub open spec fn valid_tool_name(s: Seq<char>) -> bool {
    forall|i: int| 0 <= i < s.len() ==> is_word_char(#[trigger] s[i])
}

pub open spec fn str_or(m: DocModel, sec: Seq<char>, key: Seq<char>, dflt: Seq<char>) -> Seq<
    char,
> {
    match model_get_str(m, sec, key) {
        Some(s) => s,
        None => dflt,
    }
}

pub open spec fn list_or_empty(m: DocModel, sec: Seq<char>, key: Seq<char>) -> Seq<Seq<char>> {
    match model_get_str_list(m, sec, key) {
        Some(l) => l,
        None => Seq::empty(),
    }
}

/// Why a well-formed document still fails to be a manifest, in order of
/// detection: a missing skill name or binary, a missing tool name, or a tool
/// name with characters outside `[A-Za-z0-9_]`.
pub open spec fn manifest_error(m: DocModel) -> Option<Seq<char>> {
    if model_get_str(m, "skill"@, "name"@) is None {
        Some("skill.name is required"@)
    } else if model_get_str(m, "skill"@, "binary"@) is None {
        Some("skill.binary is required"@)
    } else if model_get_str(m, "tool"@, "name"@) is None {
        Some("tool.name is required"@)
    } else if !valid_tool_name(model_get_str(m, "tool"@, "name"@).unwrap()) {
        Some(
            "tool.name '"@ + model_get_str(m, "tool"@, "name"@).unwrap()
                + "' must be alphanumeric with underscores"@,
        )
    } else {
        None
    }
}

/// The declared parameters: the names list paired with the type, description
/// and required lists, shorter lists padded with their defaults.
pub open spec fn params_of(m: DocModel) -> Seq<(Seq<char>, Seq<char>, Seq<char>, bool)> {
    let names = list_or_empty(m, "tool"@, "param_names"@);
    let types = list_or_empty(m, "tool"@, "param_types"@);
    let descs = list_or_empty(m, "tool"@, "param_descriptions"@);
    let reqs = list_or_empty(m, "tool"@, "param_required"@);
    Seq::new(
        names.len(),
        |i: int|
            (
                names[i],
                if 0 <= i < types.len() {
                    types[i]
                } else {
                    "string"@
                },
                if 0 <= i < descs.len() {
                    descs[i]
                } else {
                    names[i]
                },
                reqs.contains(names[i]),
            ),
    )
}

pub open spec fn param_model(p: SkillParam) -> (Seq<char>, Seq<char>, Seq<char>, bool) {
    (p.name@, p.param_type@, p.description@, p.required)
}

pub open spec fn params_model(ps: Seq<SkillParam>) -> Seq<(Seq<char>, Seq<char>, Seq<char>, bool)> {
    Seq::new(ps.len(), |i: int| param_model(ps[i]))
}

/// The manifest that the document `m` describes.
pub open spec fn manifest_matches(man: SkillManifest, m: DocModel) -> bool {
    &&& Some(man.name@) == model_get_str(m, "skill"@, "name"@)
    &&& man.version@ == str_or(m, "skill"@, "version"@, "0.1.0"@)
    &&& man.description@ == str_or(m, "skill"@, "description"@, man.name@)
    &&& Some(man.binary@) == model_get_str(m, "skill"@, "binary"@)
    &&& man.cap_network == (model_get_str(m, "capabilities"@, "network"@) == Some("true"@))
    &&& man.cap_file_read.deep_view() == list_or_empty(m, "capabilities"@, "file_read"@)
    &&& man.cap_file_write.deep_view() == list_or_empty(m, "capabilities"@, "file_write"@)
    &&& man.cap_commands.deep_view() == list_or_empty(m, "capabilities"@, "commands"@)
    &&& Some(man.tool_name@) == model_get_str(m, "tool"@, "name"@)
    &&& man.tool_description@ == str_or(m, "tool"@, "description"@, man.description@)
    &&& params_model(man.parameters@) == params_of(m)
}

// ── Parser ──────────────────────────────────────────────────────────────────

/// Parse and validate a manifest text.
pub fn parse_manifest(content: &str) -> (r: Result<SkillManifest, String>)
    ensures
        match r {
            Ok(man) => parse_toml_spec(content@) matches Ok(m) && manifest_error(m) is None
                && manifest_matches(man, m),
            Err(e) => match parse_toml_spec(content@) {
                Ok(m) => manifest_error(m) matches Some(me) && e@ == me,
                Err(pe) => e@ == pe,
            },
        },
{
    let doc = match parse_toml(content) {
        Ok(d) => d,
        Err(e) => {
            return Err(e);
        },
    };
    let ghost m: DocModel = crate::config::doc_model(doc.sections@);

    let name = match doc.get_str("skill", "name") {
        Some(v) => v,
        None => {
            return Err(String::from_str("skill.name is required"));
        },
    };
    let version = match doc.get_str("skill", "version") {
        Some(v) => v,
        None => String::from_str("0.1.0"),
    };
    let description = match doc.get_str("skill", "description") {
        Some(v) => v,
        None => name.clone(),
    };
    let binary = match doc.get_str("skill", "binary") {
        Some(v) => v,
        None => {
            return Err(String::from_str("skill.binary is required"));
        },
    };

    let cap_network = match doc.get_str("capabilities", "network") {
        Some(v) => v == String::from_str("true"),
        None => false,
    };
    let cap_file_read = match doc.get_str_list("capabilities", "file_read") {
        Some(l) => l,
        None => Vec::new(),
    };
    let cap_file_write = match doc.get_str_list("capabilities", "file_write") {
        Some(l) => l,
        None => Vec::new(),
    };
    let cap_commands = match doc.get_str_list("capabilities", "commands") {
        Some(l) => l,
        None => Vec::new(),
    };

    proof {
        if model_get_str_list(m, "capabilities"@, "file_read"@) is None {
            assert(cap_file_read.deep_view() =~= Seq::<Seq<char>>::empty());
        }
        if model_get_str_list(m, "capabilities"@, "file_write"@) is None {
            assert(cap_file_write.deep_view() =~= Seq::<Seq<char>>::empty());
        }
        if model_get_str_list(m, "capabilities"@, "commands"@) is None {
            assert(cap_commands.deep_view() =~= Seq::<Seq<char>>::empty());
        }
    }

    let tool_name = match doc.get_str("tool", "name") {
        Some(v) => v,
        None => {
            return Err(String::from_str("tool.name is required"));
        },
    };
    let tool_description = match doc.get_str("tool", "description") {
        Some(v) => v,
        None => description.clone(),
    };

    // Reject tool names outside [A-Za-z0-9_].
    let tn = crate::text::str_to_chars(tool_name.as_str());
    let tn_len = tn.len();
    let mut ti: usize = 0;
    while ti < tn_len
        invariant
            ti <= tn_len,
            tn_len == tn@.len(),
            tn@ == tool_name@,
            parse_toml_spec(content@) == Ok::<DocModel, Seq<char>>(m),
            model_get_str(m, "skill"@, "name"@) is Some,
            model_get_str(m, "skill"@, "binary"@) is Some,
            model_get_str(m, "tool"@, "name"@) == Some(tool_name@),
            forall|k: int| 0 <= k < ti ==> is_word_char(#[trigger] tn@[k]),
        decreases tn_len - ti,
    {
        let c = tn[ti];
        let cv = c as u32;
        let ok = (48 <= cv && cv <= 57) || (65 <= cv && cv <= 90) || (97 <= cv && cv <= 122) || c
            == '_';
        if !ok {
            proof {
                assert(!is_word_char(tn@[ti as int]));
                assert(!valid_tool_name(tool_name@));
            }
            return Err(
                String::from_str("tool.name '").concat(tool_name.as_str()).concat(
                    "' must be alphanumeric with underscores",
                ),
            );
        }
        ti = ti + 1;
    }
    proof {
        assert(valid_tool_name(tool_name@));
    }

    let param_names = match doc.get_str_list("tool", "param_names") {
        Some(l) => l,
        None => Vec::new(),
    };
    let param_types = match doc.get_str_list("tool", "param_types") {
        Some(l) => l,
        None => Vec::new(),
    };
    let param_descs = match doc.get_str_list("tool", "param_descriptions") {
        Some(l) => l,
        None => Vec::new(),
    };
    let param_reqs = match doc.get_str_list("tool", "param_required") {
        Some(l) => l,
        None => Vec::new(),
    };
    proof {
        if model_get_str_list(m, "tool"@, "param_names"@) is None {
            assert(param_names.deep_view() =~= Seq::<Seq<char>>::empty());
        }
        if model_get_str_list(m, "tool"@, "param_types"@) is None {
            assert(param_types.deep_view() =~= Seq::<Seq<char>>::empty());
        }
        if model_get_str_list(m, "tool"@, "param_descriptions"@) is None {
            assert(param_descs.deep_view() =~= Seq::<Seq<char>>::empty());
        }
        if model_get_str_list(m, "tool"@, "param_required"@) is None {
            assert(param_reqs.deep_view() =~= Seq::<Seq<char>>::empty());
        }
    }

    let mut parameters: Vec<SkillParam> = Vec::new();
    let np = param_names.len();
    let mut i: usize = 0;
    proof {
        assert(params_model(parameters@) =~= params_of(m).take(0));
    }
    while i < np
        invariant
            i <= np,
            np == param_names@.len(),
            param_names.deep_view() == list_or_empty(m, "tool"@, "param_names"@),
            param_types.deep_view() == list_or_empty(m, "tool"@, "param_types"@),
            param_descs.deep_view() == list_or_empty(m, "tool"@, "param_descriptions"@),
            param_reqs.deep_view() == list_or_empty(m, "tool"@, "param_required"@),
            params_model(parameters@) == params_of(m).take(i as int),
        decreases np - i,
    {
        let pname = param_names[i].clone();
        let ptype = if i < param_types.len() {
            param_types[i].clone()
        } else {
            String::from_str("string")
        };
        let pdesc = if i < param_descs.len() {
            param_descs[i].clone()
        } else {
            param_names[i].clone()
        };
        let preq = crate::text::contains_string(&param_reqs, &param_names[i]);
        let ghost pre = parameters@;
        parameters.push(SkillParam { name: pname, param_type: ptype, description: pdesc, required: preq });
        proof {
            assert(params_of(m).len() == param_names.deep_view().len());
            assert(params_model(pre) == params_of(m).take(i as int));
            assert(params_model(pre).len() == i);
            assert(pre.len() == i);
            assert(parameters@.len() == i + 1);
            assert forall|k: int| 0 <= k <= i implies #[trigger] params_model(parameters@)[k]
                == params_of(m)[k] by {
                if k < i {
                    assert(parameters@[k] == pre[k]);
                    assert(params_model(pre)[k] == params_of(m).take(i as int)[k]);
                } else {
                    assert(parameters@[k].name@ == list_or_empty(m, "tool"@, "param_names"@)[k]);
                }
            }
            assert(params_model(parameters@) =~= params_of(m).take(i + 1));
        }
        i = i + 1;
    }
    proof {
        assert(params_of(m).take(np as int) =~= params_of(m));
    }

    Ok(
        SkillManifest {
            name,
            version,
            description,
            binary,
            cap_network,
            cap_file_read,
            cap_file_write,
            cap_commands,
            tool_name,
            tool_description,
            parameters,
        },
    )
}

} // verus!
