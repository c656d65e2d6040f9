//! Directives decoded from model replies, their resolution to local or
//! remote actions, and the agent that drives one iteration at a time.

use crate::errors::AgentError;
use crate::json::{
    spec_view_json, spec_view_list, spec_view_members, JsonValue, SpecJson,
    lemma_view_list_index, lemma_view_members_index,
};
use crate::mcp_client::MCPClient;
use crate::text::{bytes_eq_str, clone_bytes, spec_str_bytes, str_to_bytes, string_from_utf8};
use vstd::prelude::*;
use vstd::string::StringExecFns;
use vstd::utf8::valid_utf8;

verus! {

/// The validated arguments of the local `write_file` capability.
#[derive(Debug)]
pub struct Arguments {
    pub path: String,
    pub content: String,
}

/// The typed form of a `write_file` tool call: the tool name with its
/// arguments.
pub struct Params {
    pub name: String,
    pub arguments: Arguments,
}

/// One directive decoded from a model reply: an action name with an
/// argument mapping. Text is held as UTF-8 bytes.
#[derive(Debug)]
pub struct MCPRequest {
    pub action: Vec<u8>,
    pub args: Vec<(Vec<u8>, JsonValue)>,
}

/// Everything decoded from one model reply: the directives, in order.
#[derive(Debug)]
pub struct ModelResponse {
    pub mcp_requests: Vec<MCPRequest>,
}

/// A handler of directives, for callers that bring their own execution.
pub trait MCPServer {
    fn handle_request(&self, request: MCPRequest) -> Result<(), AgentError>;
}

/// The mathematical reading of one directive: action bytes and argument
/// members.
pub open spec fn spec_dir_view(r: MCPRequest) -> (Seq<u8>, Seq<(Seq<u8>, SpecJson)>) {
    (r.action@, spec_view_members(r.args@))
}

pub open spec fn spec_view_dirs(s: Seq<MCPRequest>) -> Seq<(Seq<u8>, Seq<(Seq<u8>, SpecJson)>)>
    decreases s.len(),
{
    if s.len() == 0 {
        Seq::<(Seq<u8>, Seq<(Seq<u8>, SpecJson)>)>::empty()
    } else {
        seq![spec_dir_view(s[0])] + spec_view_dirs(s.drop_first())
    }
}

pub proof fn lemma_view_dirs_index(s: Seq<MCPRequest>)
    ensures
        spec_view_dirs(s).len() == s.len(),
        forall|i: int| 0 <= i < s.len() ==> spec_view_dirs(s)[i] == spec_dir_view(s[i]),
    decreases s.len(),
{
    if s.len() > 0 {
        lemma_view_dirs_index(s.drop_first());
    }
}

proof fn lemma_view_dirs_snoc(s: Seq<MCPRequest>, d: MCPRequest)
    ensures
        spec_view_dirs(s.push(d)) == spec_view_dirs(s) + seq![spec_dir_view(d)],
    decreases s.len(),
{
    assert(s.push(d)[0] == if s.len() == 0 {
        d
    } else {
        s[0]
    });
    if s.len() == 0 {
        assert(s.push(d).drop_first() =~= Seq::<MCPRequest>::empty());
        assert(spec_view_dirs(Seq::<MCPRequest>::empty()) =~= Seq::<(
            Seq<u8>,
            Seq<(Seq<u8>, SpecJson)>,
        )>::empty());
        assert(spec_view_dirs(s.push(d)) =~= spec_view_dirs(s) + seq![spec_dir_view(d)]);
    } else {
        assert(s.push(d).drop_first() =~= s.drop_first().push(d));
        lemma_view_dirs_snoc(s.drop_first(), d);
        assert(spec_view_dirs(s.push(d)) =~= spec_view_dirs(s) + seq![spec_dir_view(d)]);
    }
}

// ---------------------------------------------------------------------------
// Decoding the directive schema out of a parsed JSON value. A member list is
// read left to right; the first occurrence of a key decides.
// ---------------------------------------------------------------------------

/// Folds the members of a directive object: the `action` member must be a
/// string, the `args` member an object, and both must be present.
pub open spec fn spec_directive_fields(
    ms: Seq<(Seq<u8>, SpecJson)>,
    action: Option<Seq<u8>>,
    args: Option<Seq<(Seq<u8>, SpecJson)>>,
) -> Option<(Seq<u8>, Seq<(Seq<u8>, SpecJson)>)>
    decreases ms.len(),
{
    if ms.len() == 0 {
        match (action, args) {
            (Some(a), Some(g)) => Some((a, g)),
            _ => None,
        }
    } else if ms[0].0 == spec_str_bytes("action"@) && action is None {
        match ms[0].1 {
            SpecJson::Str(b) => spec_directive_fields(ms.drop_first(), Some(b), args),
            _ => None,
        }
    } else if ms[0].0 == spec_str_bytes("args"@) && args is None {
        match ms[0].1 {
            SpecJson::Obj(g) => spec_directive_fields(ms.drop_first(), action, Some(g)),
            _ => None,
        }
    } else {
        spec_directive_fields(ms.drop_first(), action, args)
    }
}

/// The directive a JSON value stands for, if it fits the schema.
pub open spec fn spec_directive_of(v: SpecJson) -> Option<(Seq<u8>, Seq<(Seq<u8>, SpecJson)>)> {
    match v {
        SpecJson::Obj(ms) => spec_directive_fields(ms, None, None),
        _ => None,
    }
}

/// The directives a list of JSON values stands for; any misfit fails the
/// whole list.
pub open spec fn spec_directives_of(elems: Seq<SpecJson>) -> Option<
    Seq<(Seq<u8>, Seq<(Seq<u8>, SpecJson)>)>,
>
    decreases elems.len(),
{
    if elems.len() == 0 {
        Some(Seq::<(Seq<u8>, Seq<(Seq<u8>, SpecJson)>)>::empty())
    } else {
        match (spec_directive_of(elems[0]), spec_directives_of(elems.drop_first())) {
            (Some(d), Some(rest)) => Some(seq![d] + rest),
            _ => None,
        }
    }
}

/// Folds the members of a reply object looking for `mcp_requests`, which
/// must be an array.
pub open spec fn spec_reply_fields(ms: Seq<(Seq<u8>, SpecJson)>, acc: Option<Seq<SpecJson>>) -> Option<
    Seq<SpecJson>,
>
    decreases ms.len(),
{
    if ms.len() == 0 {
        acc
    } else if ms[0].0 == spec_str_bytes("mcp_requests"@) && acc is None {
        match ms[0].1 {
            SpecJson::Arr(elems) => spec_reply_fields(ms.drop_first(), Some(elems)),
            _ => None,
        }
    } else {
        spec_reply_fields(ms.drop_first(), acc)
    }
}

/// The directive sequence a whole reply value stands for, if it fits the
/// schema `{"mcp_requests": [...]}`.
pub open spec fn spec_reply_of(v: SpecJson) -> Option<Seq<(Seq<u8>, Seq<(Seq<u8>, SpecJson)>)>> {
    match v {
        SpecJson::Obj(ms) => match spec_reply_fields(ms, None) {
            Some(elems) => spec_directives_of(elems),
            None => None,
        },
        _ => None,
    }
}

/// Decodes one directive object.
#[verifier::loop_isolation(false)]
pub fn directive_of(v: JsonValue) -> (r: Option<MCPRequest>)
    ensures
        match r {
            Some(d) => spec_directive_of(v@) == Some(spec_dir_view(d)),
            None => spec_directive_of(v@) is None,
        },
{
    let mut ms = match v {
        JsonValue::Obj(ms) => ms,
        _ => {
            return None;
        },
    };
    let ghost vm0 = spec_view_members(ms@);
    proof {
        assert(spec_directive_of(v@) == spec_directive_fields(vm0, None, None));
    }
    let mut action: Option<Vec<u8>> = None;
    let mut args: Option<Vec<(Vec<u8>, JsonValue)>> = None;
    while ms.len() > 0
        invariant
            spec_directive_fields(vm0, None, None) == spec_directive_fields(
                spec_view_members(ms@),
                match action {
                    Some(a) => Some(a@),
                    None => None,
                },
                match args {
                    Some(g) => Some(spec_view_members(g@)),
                    None => None,
                },
            ),
        decreases ms@.len(),
    {
        let ghost actv: Option<Seq<u8>> = match &action {
            Some(a) => Some(a@),
            None => None,
        };
        let ghost argsv: Option<Seq<(Seq<u8>, SpecJson)>> = match &args {
            Some(g) => Some(spec_view_members(g@)),
            None => None,
        };
        proof {
            lemma_view_members_index(ms@);
            lemma_view_members_index(ms@.drop_first());
            assert(spec_view_members(ms@).drop_first() =~= spec_view_members(ms@.drop_first()));
        }
        let ghost ms0 = ms@;
        let (k, val) = ms.remove(0);
        proof {
            assert(ms0.remove(0) =~= ms0.drop_first());
            assert(k == ms0[0].0 && val == ms0[0].1);
            assert(spec_view_members(ms0)[0] == (k@, spec_view_json(val)));
        }
        if bytes_eq_str(&k, "action") && action.is_none() {
            match val {
                JsonValue::Str(b) => {
                    action = Some(b);
                },
                _ => {
                    proof {
                        assert(spec_directive_fields(spec_view_members(ms0), actv, argsv)
                            is None);
                    }
                    return None;
                },
            }
        } else if bytes_eq_str(&k, "args") && args.is_none() {
            match val {
                JsonValue::Obj(g) => {
                    args = Some(g);
                },
                _ => {
                    proof {
                        assert(spec_directive_fields(spec_view_members(ms0), actv, argsv)
                            is None);
                    }
                    return None;
                },
            }
        }
    }
    proof {
        assert(spec_view_members(ms@) =~= Seq::<(Seq<u8>, SpecJson)>::empty());
    }
    match (action, args) {
        (Some(a), Some(g)) => Some(MCPRequest { action: a, args: g }),
        _ => None,
    }
}

/// Decodes a list of directive objects; fails if any element misfits.
#[verifier::loop_isolation(false)]
pub fn directives_of(arr: Vec<JsonValue>) -> (r: Option<Vec<MCPRequest>>)
    ensures
        match r {
            Some(ds) => spec_directives_of(spec_view_list(arr@)) == Some(spec_view_dirs(ds@)),
            None => spec_directives_of(spec_view_list(arr@)) is None,
        },
{
    let ghost vl0 = spec_view_list(arr@);
    let mut rem = arr;
    let mut out: Vec<MCPRequest> = Vec::new();
    while rem.len() > 0
        invariant
            match spec_directives_of(spec_view_list(rem@)) {
                Some(rest) => spec_directives_of(vl0) == Some(spec_view_dirs(out@) + rest),
                None => spec_directives_of(vl0) is None,
            },
        decreases rem@.len(),
    {
        proof {
            lemma_view_list_index(rem@);
            lemma_view_list_index(rem@.drop_first());
            assert(spec_view_list(rem@).drop_first() =~= spec_view_list(rem@.drop_first()));
        }
        let ghost rem0 = rem@;
        let d = rem.remove(0);
        proof {
            assert(rem0.remove(0) =~= rem0.drop_first());
            assert(d == rem0[0]);
            assert(spec_view_list(rem0)[0] == spec_view_json(d));
        }
        match directive_of(d) {
            None => {
                proof {
                    assert(spec_directives_of(spec_view_list(rem0)) is None);
                }
                return None;
            },
            Some(dr) => {
                let ghost out0 = out@;
                proof {
                    lemma_view_dirs_snoc(out0, dr);
                }
                out.push(dr);
                proof {
                    assert(spec_view_dirs(out@) =~= spec_view_dirs(out0) + seq![spec_dir_view(dr)]);
                    assert forall|rest: Seq<(Seq<u8>, Seq<(Seq<u8>, SpecJson)>)>|
                        (spec_view_dirs(out0) + (seq![spec_dir_view(dr)] + rest)) =~= (spec_view_dirs(
                            out@,
                        ) + rest) by {}
                }
            },
        }
    }
    proof {
        assert(spec_view_list(rem@) =~= Seq::<SpecJson>::empty());
        assert(spec_view_dirs(out@) + Seq::<(Seq<u8>, Seq<(Seq<u8>, SpecJson)>)>::empty()
            =~= spec_view_dirs(out@));
    }
    Some(out)
}

/// Decodes a parsed reply value into the directives it carries.
#[verifier::loop_isolation(false)]
pub fn reply_of(v: JsonValue) -> (r: Option<ModelResponse>)
    ensures
        match r {
            Some(m) => spec_reply_of(v@) == Some(spec_view_dirs(m.mcp_requests@)),
            None => spec_reply_of(v@) is None,
        },
{
    let mut ms = match v {
        JsonValue::Obj(ms) => ms,
        _ => {
            return None;
        },
    };
    let ghost vm0 = spec_view_members(ms@);
    proof {
        assert(spec_reply_of(v@) == (match spec_reply_fields(vm0, None) {
            Some(elems) => spec_directives_of(elems),
            None => None,
        }));
    }
    let mut found: Option<Vec<JsonValue>> = None;
    while ms.len() > 0
        invariant
            spec_reply_fields(vm0, None) == spec_reply_fields(
                spec_view_members(ms@),
                match found {
                    Some(g) => Some(spec_view_list(g@)),
                    None => None,
                },
            ),
        decreases ms@.len(),
    {
        let ghost accv: Option<Seq<SpecJson>> = match &found {
            Some(g) => Some(spec_view_list(g@)),
            None => None,
        };
        proof {
            lemma_view_members_index(ms@);
            lemma_view_members_index(ms@.drop_first());
            assert(spec_view_members(ms@).drop_first() =~= spec_view_members(ms@.drop_first()));
        }
        let ghost ms0 = ms@;
        let (k, val) = ms.remove(0);
        proof {
            assert(ms0.remove(0) =~= ms0.drop_first());
            assert(k == ms0[0].0 && val == ms0[0].1);
            assert(spec_view_members(ms0)[0] == (k@, spec_view_json(val)));
        }
        if bytes_eq_str(&k, "mcp_requests") && found.is_none() {
            match val {
                JsonValue::Arr(elems) => {
                    found = Some(elems);
                },
                _ => {
                    proof {
                        assert(spec_reply_fields(spec_view_members(ms0), accv) is None);
                    }
                    return None;
                },
            }
        }
    }
    proof {
        assert(spec_view_members(ms@) =~= Seq::<(Seq<u8>, SpecJson)>::empty());
    }
    match found {
        Some(elems) => match directives_of(elems) {
            Some(ds) => Some(ModelResponse { mcp_requests: ds }),
            None => None,
        },
        None => None,
    }
}

// ---------------------------------------------------------------------------
// Resolving directives to actions.
// ---------------------------------------------------------------------------

/// What a directive resolves to: the local `write_file` capability with its
/// validated arguments, or a call forwarded through the transport.
#[derive(Debug)]
pub enum PlannedAction {
    WriteFile(Arguments),
    Remote,
}

/// Folds the argument members of a `write_file` directive: `path` and
/// `content` must both be present, strings, and valid UTF-8.
pub open spec fn spec_wf_args(
    args: Seq<(Seq<u8>, SpecJson)>,
    path: Option<Seq<u8>>,
    content: Option<Seq<u8>>,
) -> Option<(Seq<u8>, Seq<u8>)>
    decreases args.len(),
{
    if args.len() == 0 {
        match (path, content) {
            (Some(p), Some(c)) => if valid_utf8(p) && valid_utf8(c) {
                Some((p, c))
            } else {
                None
            },
            _ => None,
        }
    } else if args[0].0 == spec_str_bytes("path"@) && path is None {
        match args[0].1 {
            SpecJson::Str(b) => spec_wf_args(args.drop_first(), Some(b), content),
            _ => None,
        }
    } else if args[0].0 == spec_str_bytes("content"@) && content is None {
        match args[0].1 {
            SpecJson::Str(b) => spec_wf_args(args.drop_first(), path, Some(b)),
            _ => None,
        }
    } else {
        spec_wf_args(args.drop_first(), path, content)
    }
}

/// Resolves one directive: `write_file` becomes a local action once its
/// arguments check out (else `ArgumentError`); every other action is
/// forwarded to the tool server. The path is honored as the model supplied
/// it — no containment check is made here, so a caller that wants one must
/// add it before performing the write.
#[verifier::loop_isolation(false)]
pub fn resolve_directive(req: &MCPRequest) -> (r: Result<PlannedAction, AgentError>)
    ensures
        req.action@ != spec_str_bytes("write_file"@) ==> (r matches Ok(PlannedAction::Remote)),
        req.action@ == spec_str_bytes("write_file"@) ==> match spec_wf_args(
            spec_view_members(req.args@),
            None,
            None,
        ) {
            Some(pc) => (r matches Ok(PlannedAction::WriteFile(a)) && spec_str_bytes(a.path@)
                == pc.0 && spec_str_bytes(a.content@) == pc.1),
            None => (r matches Err(AgentError::ArgumentError)),
        },
{
    if !bytes_eq_str(&req.action, "write_file") {
        return Ok(PlannedAction::Remote);
    }
    let ghost vm0 = spec_view_members(req.args@);
    proof {
        lemma_view_members_index(req.args@);
        assert(vm0.skip(0) =~= vm0);
    }
    let n = req.args.len();
    let mut i: usize = 0;
    let mut path: Option<Vec<u8>> = None;
    let mut content: Option<Vec<u8>> = None;
    while i < n
        invariant
            i <= n,
            spec_wf_args(vm0, None, None) == spec_wf_args(
                vm0.skip(i as int),
                match path {
                    Some(p) => Some(p@),
                    None => None,
                },
                match content {
                    Some(c) => Some(c@),
                    None => None,
                },
            ),
        decreases n - i,
    {
        proof {
            assert(vm0.skip(i as int)[0] == vm0[i as int]);
            assert(vm0.skip(i as int).drop_first() =~= vm0.skip(i as int + 1));
            assert(vm0[i as int] == (req.args@[i as int].0@, spec_view_json(req.args@[i as int].1)));
        }
        if bytes_eq_str(&req.args[i].0, "path") && path.is_none() {
            match &req.args[i].1 {
                JsonValue::Str(b) => {
                    path = Some(clone_bytes(b));
                },
                _ => {
                    return Err(AgentError::ArgumentError);
                },
            }
        } else if bytes_eq_str(&req.args[i].0, "content") && content.is_none() {
            match &req.args[i].1 {
                JsonValue::Str(b) => {
                    content = Some(clone_bytes(b));
                },
                _ => {
                    return Err(AgentError::ArgumentError);
                },
            }
        }
        i = i + 1;
    }
    proof {
        assert(vm0.skip(n as int) =~= Seq::<(Seq<u8>, SpecJson)>::empty());
    }
    match (path, content) {
        (Some(p), Some(c)) => {
            let ghost p0 = p@;
            let ghost c0 = c@;
            match (string_from_utf8(p), string_from_utf8(c)) {
                (Some(ps), Some(cs)) => Ok(
                    PlannedAction::WriteFile(Arguments { path: ps, content: cs }),
                ),
                _ => Err(AgentError::ArgumentError),
            }
        },
        _ => Err(AgentError::ArgumentError),
    }
}

/// Whether a directive cannot be dispatched: a `write_file` whose arguments
/// do not check out.
pub open spec fn spec_dir_fails(d: (Seq<u8>, Seq<(Seq<u8>, SpecJson)>)) -> bool {
    d.0 == spec_str_bytes("write_file"@) && spec_wf_args(d.1, None, None) is None
}

/// Whether an action is the correct resolution of a directive.
pub open spec fn spec_action_matches(
    d: (Seq<u8>, Seq<(Seq<u8>, SpecJson)>),
    act: PlannedAction,
) -> bool {
    if d.0 == spec_str_bytes("write_file"@) {
        match spec_wf_args(d.1, None, None) {
            Some(pc) => match act {
                PlannedAction::WriteFile(a) => spec_str_bytes(a.path@) == pc.0 && spec_str_bytes(
                    a.content@,
                ) == pc.1,
                PlannedAction::Remote => false,
            },
            None => false,
        }
    } else {
        act is Remote
    }
}

/// The position of the first directive that cannot be dispatched, if any.
pub open spec fn spec_first_failure(ds: Seq<(Seq<u8>, Seq<(Seq<u8>, SpecJson)>)>) -> Option<int>
    decreases ds.len(),
{
    if ds.len() == 0 {
        None
    } else if spec_dir_fails(ds[0]) {
        Some(0)
    } else {
        match spec_first_failure(ds.drop_first()) {
            Some(k) => Some(k + 1),
            None => None,
        }
    }
}

pub proof fn lemma_first_failure_none(ds: Seq<(Seq<u8>, Seq<(Seq<u8>, SpecJson)>)>)
    ensures
        (spec_first_failure(ds) is None) <==> (forall|k: int|
            0 <= k < ds.len() ==> !spec_dir_fails(#[trigger] ds[k])),
    decreases ds.len(),
{
    if ds.len() > 0 {
        lemma_first_failure_none(ds.drop_first());
        let dd = ds.drop_first();
        if spec_first_failure(ds) is None {
            assert forall|k: int| 0 <= k < ds.len() implies !spec_dir_fails(#[trigger] ds[k]) by {
                if k > 0 {
                    assert(ds[k] == dd[k - 1]);
                    assert(!spec_dir_fails(dd[k - 1]));
                }
            }
        } else {
            if !spec_dir_fails(ds[0]) {
                assert(spec_first_failure(dd) is Some);
                let j = choose|j: int| 0 <= j < dd.len() && spec_dir_fails(#[trigger] dd[j]);
                assert(ds[j + 1] == dd[j]);
                assert(spec_dir_fails(ds[j + 1]));
            }
        }
    }
}

/// Resolves a whole reply, in order, aborting at the first directive that
/// cannot be dispatched: directives after a failure are not resolved. This
/// is the dispatch policy of this crate.
#[verifier::loop_isolation(false)]
pub fn resolve_directives(reqs: &Vec<MCPRequest>) -> (r: Result<Vec<PlannedAction>, AgentError>)
    ensures
        match spec_first_failure(spec_view_dirs(reqs@)) {
            None => (r matches Ok(acts) && acts@.len() == reqs@.len() && forall|k: int|
                0 <= k < reqs@.len() ==> spec_action_matches(
                    spec_view_dirs(reqs@)[k],
                    #[trigger] acts@[k],
                )),
            Some(_) => (r matches Err(AgentError::ArgumentError)),
        },
{
    let ghost dv = spec_view_dirs(reqs@);
    proof {
        lemma_view_dirs_index(reqs@);
    }
    let n = reqs.len();
    let mut out: Vec<PlannedAction> = Vec::new();
    let mut i: usize = 0;
    while i < n
        invariant
            i <= n,
            out@.len() == i,
            forall|k: int| 0 <= k < i ==> !spec_dir_fails(#[trigger] dv[k]),
            forall|k: int| 0 <= k < i ==> spec_action_matches(dv[k], #[trigger] out@[k]),
        decreases n - i,
    {
        match resolve_directive(&reqs[i]) {
            Ok(act) => {
                out.push(act);
            },
            Err(_) => {
                proof {
                    lemma_first_failure_none(dv);
                    assert(spec_dir_fails(dv[i as int]));
                }
                return Err(AgentError::ArgumentError);
            },
        }
        i = i + 1;
    }
    proof {
        lemma_first_failure_none(dv);
    }
    Ok(out)
}

// ---------------------------------------------------------------------------
// The effect of the local capability on a modelled file system.
// ---------------------------------------------------------------------------

/// The index just after the last separator in a path, if any.
pub open spec fn spec_last_sep(path: Seq<u8>, i: int) -> Option<int>
    decreases i,
{
    if i <= 0 || i > path.len() {
        None
    } else if path[i - 1] == 0x2f {
        Some(i - 1)
    } else {
        spec_last_sep(path, i - 1)
    }
}

/// The parent directory of a path: everything before its last separator.
/// A bare file name has no parent to create.
pub open spec fn spec_parent_dir(path: Seq<u8>) -> Option<Seq<u8>> {
    match spec_last_sep(path, path.len() as int) {
        Some(ix) => Some(path.take(ix)),
        None => None,
    }
}

/// A file system modelled as a map from paths to contents: a write replaces
/// the file wholesale.
pub open spec fn spec_apply_write(
    fs: Map<Seq<u8>, Seq<u8>>,
    path: Seq<u8>,
    content: Seq<u8>,
) -> Map<Seq<u8>, Seq<u8>> {
    fs.insert(path, content)
}

/// The directories present after a write: the target's parent is created if
/// the path has one.
pub open spec fn spec_apply_dirs(dirs: Set<Seq<u8>>, path: Seq<u8>) -> Set<Seq<u8>> {
    match spec_parent_dir(path) {
        Some(d) => dirs.insert(d),
        None => dirs,
    }
}

/// After a `write_file` the target holds exactly the supplied content and
/// its parent directory exists; repeating the same write changes nothing
/// more: the write is idempotent.
pub proof fn lemma_write_file_idempotent(
    fs: Map<Seq<u8>, Seq<u8>>,
    dirs: Set<Seq<u8>>,
    path: Seq<u8>,
    content: Seq<u8>,
)
    ensures
        spec_apply_write(fs, path, content)[path] == content,
        spec_apply_write(fs, path, content).contains_key(path),
        spec_apply_write(spec_apply_write(fs, path, content), path, content) == spec_apply_write(
            fs,
            path,
            content,
        ),
        spec_parent_dir(path) matches Some(d) ==> spec_apply_dirs(dirs, path).contains(d),
        spec_apply_dirs(spec_apply_dirs(dirs, path), path) == spec_apply_dirs(dirs, path),
{
    assert(spec_apply_write(spec_apply_write(fs, path, content), path, content)
        =~= spec_apply_write(fs, path, content));
    match spec_parent_dir(path) {
        Some(d) => {
            assert(spec_apply_dirs(spec_apply_dirs(dirs, path), path) =~= spec_apply_dirs(
                dirs,
                path,
            ));
        },
        None => {},
    }
}

// ---------------------------------------------------------------------------
// The agent itself.
// ---------------------------------------------------------------------------

/// Holds the evolving context handed to the model and the transport that
/// carries remote calls. The caller queries the model, parses the reply,
/// resolves the directives, and performs what the library decided.
pub struct Agent {
    pub context: String,
    pub mcp_client: MCPClient,
}

impl Agent {
    pub fn new(mcp_client: MCPClient, initial_context: String) -> (r: Self)
        ensures
            r.mcp_client == mcp_client,
            r.context@ == initial_context@,
    {
        Agent { context: initial_context, mcp_client }
    }

    /// The context to hand to the model for the next iteration.
    pub fn context(&self) -> (r: &String)
        ensures
            r@ == self.context@,
    {
        &self.context
    }

    /// Appends the outcome of an iteration to the context.
    pub fn append_context(&mut self, extra: &str)
        ensures
            final(self).context@ == old(self).context@ + extra@,
            final(self).mcp_client == old(self).mcp_client,
    {
        self.context.append(extra);
    }
}

impl Params {
    /// The directive this tool call stands for, under the directive schema.
    pub fn into_directive(self) -> (r: MCPRequest)
        ensures
            r.action@ == spec_str_bytes(self.name@),
            spec_view_members(r.args@) == seq![
                (spec_str_bytes("path"@), SpecJson::Str(spec_str_bytes(self.arguments.path@))),
                (
                    spec_str_bytes("content"@),
                    SpecJson::Str(spec_str_bytes(self.arguments.content@)),
                ),
            ],
    {
        let mut args: Vec<(Vec<u8>, JsonValue)> = Vec::new();
        args.push((str_to_bytes("path"), JsonValue::Str(str_to_bytes(self.arguments.path.as_str()))));
        args.push(
            (str_to_bytes("content"), JsonValue::Str(str_to_bytes(self.arguments.content.as_str()))),
        );
        let r = MCPRequest { action: str_to_bytes(self.name.as_str()), args };
        proof {
            lemma_view_members_index(r.args@);
            assert(spec_view_members(r.args@) =~= seq![
                (spec_str_bytes("path"@), SpecJson::Str(spec_str_bytes(self.arguments.path@))),
                (
                    spec_str_bytes("content"@),
                    SpecJson::Str(spec_str_bytes(self.arguments.content@)),
                ),
            ]);
        }
        r
    }
}

} // verus!
