//! Loaded skills and the single-shot IPC protocol they speak.
//!
//! Discovery reads the filesystem and so lives in the surrounding program;
//! it hands the accepted skills here.  Spawning the subprocess and moving
//! bytes over its pipes live there too; the request framing, the response
//! interpretation and the timeout text are decided here.

use vstd::prelude::*;
use vstd::string::*;

use vstd::multiset::Multiset;

use crate::manifest::SkillManifest;
use crate::manifest::SkillParam;
use crate::text::eq_chars;
use crate::text::lemma_str_le_total;
use crate::text::lemma_str_le_trans;
use crate::text::str_le;
use crate::text::str_le_exec;
use crate::text::str_to_chars;

verus! {

/// A loaded skill: its manifest and where its binary and directory are.
pub struct SkillDef {
    pub manifest: SkillManifest,
    pub binary_path: String,
    pub skill_dir: String,
}

/// The loaded skills and the per-invocation wall-clock budget.
pub struct SkillRunner {
    pub skills: Vec<SkillDef>,
    pub skill_timeout: u64,
}

/// Some skill contributes the tool `tool_name`.
pub open spec fn skill_handles(ss: Seq<SkillDef>, tool_name: Seq<char>) -> bool {
    exists|i: int| 0 <= i < ss.len() && (#[trigger] ss[i].manifest.tool_name@) == tool_name
}

/// The first skill contributing `tool_name`.
pub open spec fn skill_for(ss: Seq<SkillDef>, tool_name: Seq<char>) -> Option<SkillDef>
    decreases ss.len(),
{
    if ss.len() == 0 {
        None
    } else if ss[0].manifest.tool_name@ == tool_name {
        Some(ss[0])
    } else {
        skill_for(ss.skip(1), tool_name)
    }
}

impl SkillRunner {
    pub fn new(skills: Vec<SkillDef>, skill_timeout: u64) -> (r: SkillRunner)
        ensures
            r.skills == skills,
            r.skill_timeout == skill_timeout,
    {
        SkillRunner { skills, skill_timeout }
    }

    /// Were any skills loaded?
    pub fn has_skills(&self) -> (r: bool)
        ensures
            r == (self.skills@.len() > 0),
    {
        self.skills.len() > 0
    }

    /// Does this runner contribute the tool `tool_name`?
    pub fn handles(&self, tool_name: &str) -> (r: bool)
        ensures
            r == skill_handles(self.skills@, tool_name@),
    {
        let target = str_to_chars(tool_name);
        let n = self.skills.len();
        let mut i: usize = 0;
        while i < n
            invariant
                i <= n,
                n == self.skills@.len(),
                target@ == tool_name@,
                forall|j: int| 0 <= j < i ==> (#[trigger] self.skills@[j].manifest.tool_name@)
                    != tool_name@,
            decreases n - i,
        {
            let tn = str_to_chars(self.skills[i].manifest.tool_name.as_str());
            if eq_chars(&tn, &target) {
                return true;
            }
            i = i + 1;
        }
        false
    }

    /// The skill for `tool_name`, if any contributes it.
    pub fn find_skill(&self, tool_name: &str) -> (r: Option<&SkillDef>)
        ensures
            match r {
                Some(s) => skill_for(self.skills@, tool_name@) == Some(*s),
                None => skill_for(self.skills@, tool_name@) is None && !skill_handles(
                    self.skills@,
                    tool_name@,
                ),
            },
    {
        let target = str_to_chars(tool_name);
        let n = self.skills.len();
        let mut i: usize = 0;
        proof {
            assert(self.skills@.skip(0) =~= self.skills@);
        }
        while i < n
            invariant
                i <= n,
                n == self.skills@.len(),
                target@ == tool_name@,
                skill_for(self.skills@, tool_name@) == skill_for(
                    self.skills@.skip(i as int),
                    tool_name@,
                ),
                forall|j: int| 0 <= j < i ==> (#[trigger] self.skills@[j].manifest.tool_name@)
                    != tool_name@,
            decreases n - i,
        {
            proof {
                assert(self.skills@.skip(i as int)[0] == self.skills@[i as int]);
                assert(self.skills@.skip(i as int).skip(1) =~= self.skills@.skip(i + 1));
            }
            let tn = str_to_chars(self.skills[i].manifest.tool_name.as_str());
            if eq_chars(&tn, &target) {
                return Some(&self.skills[i]);
            }
            i = i + 1;
        }
        None
    }

    /// One tool definition per loaded skill, in the runner's order: the
    /// manifest's tool name and description, its parameters as string-typed
    /// properties, the required ones listed.
    pub fn tool_definitions(&self) -> (r: Vec<crate::tools::ToolDef>)
        ensures
            r@.len() == self.skills@.len(),
            forall|i: int|
                0 <= i < r@.len() ==> skill_def_matches(#[trigger] r@[i], self.skills@[i].manifest),
    {
        let n = self.skills.len();
        let mut r: Vec<crate::tools::ToolDef> = Vec::new();
        let mut i: usize = 0;
        while i < n
            invariant
                i <= n,
                n == self.skills@.len(),
                r@.len() == i,
                forall|j: int|
                    0 <= j < i ==> skill_def_matches(
                        #[trigger] r@[j],
                        self.skills@[j].manifest,
                    ),
            decreases n - i,
        {
            let m = &self.skills[i].manifest;
            let np = m.parameters.len();
            let mut props: Vec<crate::tools::ParamSchema> = Vec::new();
            let mut req: Vec<String> = Vec::new();
            let mut k: usize = 0;
            while k < np
                invariant
                    k <= np,
                    np == m.parameters@.len(),
                    props@.len() == k,
                    forall|t: int|
                        0 <= t < k ==> param_prop_matches(
                            #[trigger] props@[t],
                            m.parameters@[t],
                        ),
                    req.deep_view() == required_names(m.parameters@.take(k as int)),
                decreases np - k,
            {
                let p = &m.parameters[k];
                props.push(
                    crate::tools::ParamSchema {
                        name: p.name.clone(),
                        value_type: p.param_type.clone(),
                        description: p.description.clone(),
                        item_type: None,
                    },
                );
                proof {
                    assert(m.parameters@.take(k + 1).drop_last() =~= m.parameters@.take(k as int));
                    lemma_required_names_take(m.parameters@, k as int);
                }
                if p.required {
                    let ghost pre = req.deep_view();
                    req.push(p.name.clone());
                    proof {
                        assert(req.deep_view() =~~= pre.push(p.name@));
                        assert(req.deep_view() =~= required_names(m.parameters@.take(k + 1)));
                    }
                }
                k = k + 1;
            }
            proof {
                assert(m.parameters@.take(np as int) =~= m.parameters@);
            }
            r.push(
                crate::tools::ToolDef {
                    name: m.tool_name.clone(),
                    description: m.tool_description.clone(),
                    properties: props,
                    required: req,
                },
            );
            i = i + 1;
        }
        r
    }
}

/// The names of the required parameters, in order.
pub open spec fn required_names(ps: Seq<SkillParam>) -> Seq<Seq<char>>
    decreases ps.len(),
{
    if ps.len() == 0 {
        Seq::empty()
    } else if ps.last().required {
        required_names(ps.drop_last()).push(ps.last().name@)
    } else {
        required_names(ps.drop_last())
    }
}

proof fn lemma_required_names_take(ps: Seq<SkillParam>, k: int)
    requires
        0 <= k < ps.len(),
    ensures
        required_names(ps.take(k + 1)) == (if ps[k].required {
            required_names(ps.take(k)).push(ps[k].name@)
        } else {
            required_names(ps.take(k))
        }),
{
    assert(ps.take(k + 1).drop_last() =~= ps.take(k));
    assert(ps.take(k + 1).last() == ps[k]);
}

/// One schema property reflects one declared parameter.
pub open spec fn param_prop_matches(p: crate::tools::ParamSchema, d: SkillParam) -> bool {
    &&& p.name@ == d.name@
    &&& p.value_type@ == d.param_type@
    &&& p.description@ == d.description@
    &&& p.item_type is None
}

/// One tool definition reflects one skill manifest.
pub open spec fn skill_def_matches(def: crate::tools::ToolDef, m: SkillManifest) -> bool {
    &&& def.name@ == m.tool_name@
    &&& def.description@ == m.tool_description@
    &&& def.properties@.len() == m.parameters@.len()
    &&& forall|t: int|
        0 <= t < def.properties@.len() ==> param_prop_matches(
            #[trigger] def.properties@[t],
            m.parameters@[t],
        )
    &&& def.required.deep_view() == required_names(m.parameters@)
}

// ── IPC framing ─────────────────────────────────────────────────────────────

/// The one request line written to a skill's standard input.
pub fn build_skill_request(params_json: &str) -> (r: String)
    ensures
        r@ == "{\"params\":"@ + params_json@ + "}\n"@,
{
    String::from_str("{\"params\":").concat(params_json).concat("}\n")
}

/// What a skill's one response line means.  `error_text` is its `error`
/// field when that is a string; `result_text` its `result` field when that
/// is a string; `result_other` the serialized `result` field otherwise.
/// With none of the three, the whole line stands.
pub fn interpret_skill_response(
    error_text: Option<String>,
    result_text: Option<String>,
    result_other: Option<String>,
    raw_line: &str,
) -> (r: Result<String, String>)
    ensures
        match error_text {
            Some(e) => r matches Err(m) && m@ == "skill error: "@ + e@,
            None => match result_text {
                Some(t) => r == Ok::<String, String>(t),
                None => match result_other {
                    Some(j) => r == Ok::<String, String>(j),
                    None => r matches Ok(m) && m@ == raw_line@,
                },
            },
        },
{
    match error_text {
        Some(e) => Err(String::from_str("skill error: ").concat(e.as_str())),
        None => match result_text {
            Some(t) => Ok(t),
            None => match result_other {
                Some(j) => Ok(j),
                None => Ok(String::from_str(raw_line)),
            },
        },
    }
}

/// The error text of a timed-out skill.
pub fn skill_timeout_message(secs: u64) -> (r: String)
    ensures
        r@ == "skill timed out after "@ + crate::num::u64_dec_digits(secs as int) + "s"@,
{
    String::from_str("skill timed out after ").concat(
        crate::num::u64_to_dec_string(secs).as_str(),
    ).concat("s")
}

// ── Deterministic ordering ──────────────────────────────────────────────────

/// Skill names in non-decreasing order.
pub open spec fn sorted_by_name(ss: Seq<SkillDef>) -> bool {
    forall|i: int, j: int|
        0 <= i < j < ss.len() ==> str_le(
            (#[trigger] ss[i]).manifest.name@,
            (#[trigger] ss[j]).manifest.name@,
        )
}

/// Sort loaded skills by name, so that every run offers the tools in the
/// same order.
pub fn sort_skills_by_name(defs: Vec<SkillDef>) -> (r: Vec<SkillDef>)
    ensures
        sorted_by_name(r@),
        r@.to_multiset() == defs@.to_multiset(),
{
    broadcast use vstd::seq_lib::group_to_multiset_ensures;

    let n = defs.len();
    let mut rest = defs;
    let mut out: Vec<SkillDef> = Vec::new();
    proof {
        assert(out@.to_multiset().add(rest@.to_multiset()) =~= rest@.to_multiset());
    }
    while rest.len() > 0
        invariant
            sorted_by_name(out@),
            out@.to_multiset().add(rest@.to_multiset()) == defs@.to_multiset(),
        decreases rest@.len(),
    {
        let ghost pre_rest = rest@;
        let d = rest.remove(0);
        proof {
            assert(pre_rest =~= rest@.insert(0, d));
            vstd::seq_lib::to_multiset_insert(rest@, 0, d);
        }
        let dn = str_to_chars(d.manifest.name.as_str());
        // Find the insertion point: the first kept skill the new one
        // precedes.
        let m = out.len();
        let mut p: usize = 0;
        while p < m && !str_le_exec(&dn, &str_to_chars(out[p].manifest.name.as_str()))
            invariant
                p <= m,
                m == out@.len(),
                dn@ == d.manifest.name@,
                forall|j: int| 0 <= j < p ==> !str_le(
                    d.manifest.name@,
                    (#[trigger] out@[j]).manifest.name@,
                ),
            decreases m - p,
        {
            p = p + 1;
        }
        let ghost pre_out = out@;
        out.insert(p, d);
        proof {
            vstd::seq_lib::to_multiset_insert(pre_out, p as int, d);
            assert(out@.to_multiset().add(rest@.to_multiset()) =~= defs@.to_multiset());
            assert forall|i: int, j: int| 0 <= i < j < out@.len() implies str_le(
                (#[trigger] out@[i]).manifest.name@,
                (#[trigger] out@[j]).manifest.name@,
            ) by {
                if j < p {
                    assert(out@[i] == pre_out[i] && out@[j] == pre_out[j]);
                } else if i < p && j == p {
                    assert(out@[i] == pre_out[i]);
                    lemma_str_le_total(d.manifest.name@, pre_out[i].manifest.name@);
                } else if i < p && j > p {
                    assert(out@[i] == pre_out[i] && out@[j] == pre_out[j - 1]);
                } else if i == p && j > p {
                    assert(out@[j] == pre_out[j - 1]);
                    if j - 1 > p {
                        lemma_str_le_trans(
                            d.manifest.name@,
                            pre_out[p as int].manifest.name@,
                            pre_out[j - 1].manifest.name@,
                        );
                    }
                } else {
                    assert(out@[i] == pre_out[i - 1] && out@[j] == pre_out[j - 1]);
                }
            }
        }
    }
    proof {
        assert(rest@.to_multiset() =~= Multiset::<SkillDef>::empty());
        assert(out@.to_multiset() =~= defs@.to_multiset());
    }
    out
}

} // verus!
