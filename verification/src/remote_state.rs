//! What the Codex global state says of remote projects: their order, the
//! workspace a thread hint points at, and the host a remote path belongs to.
use vstd::prelude::*;
use crate::json::{as_array, get, string_value, string_value_of, JsonValue};
use crate::registry::{path_matches, project_path_matches};
use crate::text::{chars_of, vec_eq};

verus! {

/// The `id` of a remote project entry, as text.
pub open spec fn entry_id(p: JsonValue) -> Seq<char> {
    string_value(get(p, "id"@))
}

/// The first object of `arr[from..]` whose id is `id`.
pub open spec fn first_object_with_id(arr: Seq<JsonValue>, id: Seq<char>, from: int) -> Option<int>
    decreases arr.len() - from,
{
    if from < 0 || from >= arr.len() {
        None
    } else if arr[from] is Object && entry_id(arr[from]) == id {
        Some(from)
    } else {
        first_object_with_id(arr, id, from + 1)
    }
}

/// The entries that `project-order` names, in its order.
pub open spec fn order_picks(arr: Seq<JsonValue>, order: Seq<JsonValue>) -> Seq<int>
    decreases order.len(),
{
    if order.len() == 0 {
        Seq::empty()
    } else {
        let acc = order_picks(arr, order.drop_last());
        match first_object_with_id(arr, string_value(Some(order.last())), 0) {
            Some(i) => acc.push(i),
            None => acc,
        }
    }
}

/// Some picked entry has id `id`.
pub open spec fn id_picked(arr: Seq<JsonValue>, picked: Seq<int>, id: Seq<char>) -> bool {
    exists|k: int| 0 <= k < picked.len() && entry_id(arr[#[trigger] picked[k]]) == id
}

/// The objects of `arr[..upto]` whose id was not picked, in order.
pub open spec fn rest_picks(arr: Seq<JsonValue>, picked: Seq<int>, upto: int) -> Seq<int>
    decreases upto,
{
    if upto <= 0 {
        Seq::empty()
    } else {
        let acc = rest_picks(arr, picked, upto - 1);
        let i = upto - 1;
        if i < arr.len() && arr[i] is Object && !id_picked(arr, picked, entry_id(arr[i])) {
            acc.push(i)
        } else {
            acc
        }
    }
}

pub open spec fn remote_projects(state: JsonValue) -> Seq<JsonValue> {
    match as_array(get(state, "remote-projects"@)) {
        Some(a) => a,
        None => Seq::empty(),
    }
}

pub open spec fn project_order(state: JsonValue) -> Seq<JsonValue> {
    match as_array(get(state, "project-order"@)) {
        Some(a) => a,
        None => Seq::empty(),
    }
}

/// The remote projects in display order, as indices into `remote-projects`:
/// first those `project-order` names, then the other objects.
pub open spec fn ordered_indices(state: JsonValue) -> Seq<int> {
    let arr = remote_projects(state);
    let picked = order_picks(arr, project_order(state));
    picked + rest_picks(arr, picked, arr.len() as int)
}

fn first_with_id(arr: &Vec<JsonValue>, id: &Vec<char>) -> (r: Option<usize>)
    ensures
        match first_object_with_id(arr@, id@, 0) {
            Some(i) => r matches Some(j) && j as int == i,
            None => r is None,
        },
{
    let mut i: usize = 0;
    while i < arr.len()
        invariant
            i <= arr@.len(),
            first_object_with_id(arr@, id@, 0) == first_object_with_id(arr@, id@, i as int),
        decreases arr.len() - i,
    {
        let p = &arr[i];
        if p.is_object() {
            let pid = string_value_of(p.get("id"));
            if vec_eq(&chars_of(pid.as_str()), id) {
                return Some(i);
            }
        }
        i = i + 1;
    }
    None
}

/// The remote projects of the Codex state in their project order, as
/// indices into the state's `remote-projects` array: first those the
/// `project-order` names, in that order, then the others.
pub fn ordered_remote_projects(state: &JsonValue) -> (r: Vec<usize>)
    ensures
        r@.len() == ordered_indices(*state).len(),
        forall|k: int| 0 <= k < r@.len() ==> #[trigger] r@[k] as int == ordered_indices(*state)[k],
{
    let empty: Vec<JsonValue> = Vec::new();
    let arr: &Vec<JsonValue> = match state.get("remote-projects") {
        Some(v) => match v.as_array() {
            Some(a) => a,
            None => &empty,
        },
        None => &empty,
    };
    let order: &Vec<JsonValue> = match state.get("project-order") {
        Some(v) => match v.as_array() {
            Some(a) => a,
            None => &empty,
        },
        None => &empty,
    };
    proof {
        assert(arr@ == remote_projects(*state));
        assert(order@ == project_order(*state));
    }
    let mut picked: Vec<usize> = Vec::new();
    let ghost pv: Seq<int> = Seq::empty();
    let mut k: usize = 0;
    proof {
        assert(order@.take(0) =~= Seq::<JsonValue>::empty());
    }
    while k < order.len()
        invariant
            k <= order@.len(),
            pv == order_picks(arr@, order@.take(k as int)),
            picked@.len() == pv.len(),
            forall|q: int| 0 <= q < pv.len() ==> #[trigger] picked@[q] as int == pv[q],
        decreases order.len() - k,
    {
        let id = string_value_of(Some(&order[k]));
        proof {
            assert(order@.take(k + 1).drop_last() =~= order@.take(k as int));
            assert(order@.take(k + 1).last() == order@[k as int]);
        }
        let ghost before = pv;
        match first_with_id(arr, &chars_of(id.as_str())) {
            Some(i) => {
                picked.push(i);
                proof {
                    pv = pv.push(i as int);
                    assert forall|q: int| 0 <= q < pv.len() implies #[trigger] picked@[q] as int == pv[q] by {
                        if q < before.len() {
                            assert(pv[q] == before[q]);
                        }
                    }
                }
            },
            None => {},
        }
        proof {
            let o = order@.take(k + 1);
            assert(o.len() > 0);
            assert(o.drop_last() == order@.take(k as int));
            assert(order_picks(arr@, o.drop_last()) == before);
            assert(id@ == string_value(Some(o.last())));
            lemma_first_object_in_range(arr@, id@, 0);
            match first_object_with_id(arr@, id@, 0) {
                Some(x) => {
                    assert(pv == before.push(x));
                },
                None => {
                    assert(pv == before);
                },
            }
            assert(pv == order_picks(arr@, o));
        }
        k = k + 1;
    }
    proof {
        assert(order@.take(order@.len() as int) =~= order@);
    }
    let ghost picked_all = pv;
    proof {
        lemma_order_picks_in_range(arr@, order@);
    }
    let mut out: Vec<usize> = Vec::new();
    let mut q: usize = 0;
    while q < picked.len()
        invariant
            q <= picked@.len(),
            picked@.len() == picked_all.len(),
            forall|j: int| 0 <= j < picked_all.len() ==> #[trigger] picked@[j] as int == picked_all[j],
            out@.len() == q,
            forall|j: int| 0 <= j < q ==> #[trigger] out@[j] as int == picked_all[j],
        decreases picked.len() - q,
    {
        out.push(picked[q]);
        q = q + 1;
    }
    let ghost rv: Seq<int> = Seq::empty();
    let mut i: usize = 0;
    while i < arr.len()
        invariant
            i <= arr@.len(),
            picked@.len() == picked_all.len(),
            forall|j: int| 0 <= j < picked_all.len() ==> #[trigger] picked@[j] as int == picked_all[j],
            forall|j: int| 0 <= j < picked_all.len() ==> 0 <= #[trigger] picked_all[j] < arr@.len(),
            rv == rest_picks(arr@, picked_all, i as int),
            out@.len() == picked_all.len() + rv.len(),
            forall|j: int| 0 <= j < picked_all.len() ==> #[trigger] out@[j] as int == picked_all[j],
            forall|j: int| 0 <= j < rv.len() ==> #[trigger] out@[picked_all.len() + j] as int == rv[j],
        decreases arr.len() - i,
    {
        let p = &arr[i];
        if p.is_object() {
            let pid = chars_of(string_value_of(p.get("id")).as_str());
            let mut seen = false;
            let mut j: usize = 0;
            while j < picked.len()
                invariant
                    j <= picked@.len(),
                    picked@.len() == picked_all.len(),
                    forall|m: int| 0 <= m < picked_all.len() ==> #[trigger] picked@[m] as int == picked_all[m],
                    forall|m: int| 0 <= m < picked_all.len() ==> 0 <= #[trigger] picked_all[m] < arr@.len(),
                    pid@ == entry_id(arr@[i as int]),
                    seen == exists|m: int| 0 <= m < j && entry_id(arr@[#[trigger] picked_all[m]]) == pid@,
                decreases picked.len() - j,
            {
                let other = string_value_of(arr[picked[j]].get("id"));
                if vec_eq(&chars_of(other.as_str()), &pid) {
                    seen = true;
                }
                proof {
                    assert(picked_all[j as int] == picked@[j as int] as int);
                }
                j = j + 1;
            }
            proof {
                assert(seen == id_picked(arr@, picked_all, entry_id(arr@[i as int])));
            }
            if !seen {
                out.push(i);
                proof {
                    rv = rv.push(i as int);
                }
            }
        }
        i = i + 1;
    }
    proof {
        lemma_order_picks_in_range(arr@, order@);
        assert forall|k: int| 0 <= k < out@.len() implies #[trigger] out@[k] as int == ordered_indices(
            *state,
        )[k] by {
            if k >= picked_all.len() {
                assert(out@[picked_all.len() + (k - picked_all.len())] as int == rv[k - picked_all.len()]);
            }
        }
    }
    out
}

proof fn lemma_first_object_in_range(arr: Seq<JsonValue>, id: Seq<char>, from: int)
    requires
        0 <= from,
    ensures
        first_object_with_id(arr, id, from) matches Some(i) ==> from <= i < arr.len(),
    decreases arr.len() - from,
{
    if from < arr.len() {
        lemma_first_object_in_range(arr, id, from + 1);
    }
}

proof fn lemma_order_picks_in_range(arr: Seq<JsonValue>, order: Seq<JsonValue>)
    ensures
        forall|j: int|
            0 <= j < order_picks(arr, order).len() ==> 0 <= #[trigger] order_picks(arr, order)[j]
                < arr.len(),
    decreases order.len(),
{
    if order.len() > 0 {
        lemma_order_picks_in_range(arr, order.drop_last());
        lemma_first_object_in_range(arr, string_value(Some(order.last())), 0);
        let acc = order_picks(arr, order.drop_last());
        match first_object_with_id(arr, string_value(Some(order.last())), 0) {
            Some(i) => {
                assert(order_picks(arr, order) == acc.push(i));
                assert forall|j: int| 0 <= j < acc.push(i).len() implies 0 <= #[trigger] acc.push(i)[j]
                    < arr.len() by {
                    if j < acc.len() {
                        assert(acc.push(i)[j] == acc[j]);
                    }
                }
            },
            None => {},
        }
    }
}

/// The first of `keys` whose value in `v` is a non-empty text.
pub open spec fn first_text(v: JsonValue, keys: Seq<Seq<char>>) -> Seq<char>
    decreases keys.len(),
{
    if keys.len() == 0 {
        Seq::empty()
    } else if string_value(get(v, keys[0])).len() > 0 {
        string_value(get(v, keys[0]))
    } else {
        first_text(v, keys.drop_first())
    }
}

/// The workspace a thread hint points at: the hint itself when it is a
/// string, or its first non-empty path field.
pub open spec fn hint_workspace(hint: Option<JsonValue>) -> Seq<char> {
    match hint {
        Some(JsonValue::Str(s)) => crate::text::trim(s@),
        Some(JsonValue::Object(m)) => first_text(
            JsonValue::Object(m),
            seq!["remotePath"@, "remoteWorkspaceRoot"@, "workspaceRoot"@, "path"@, "cwd"@],
        ),
        _ => Seq::empty(),
    }
}

/// `workspace_path_from_hint`.
pub fn workspace_path_from_hint(hint: Option<&JsonValue>) -> (r: String)
    ensures
        r@ == hint_workspace(
            match hint {
                Some(h) => Some(*h),
                None => None,
            },
        ),
{
    match hint {
        Some(JsonValue::Str(s)) => crate::text::trim_str(s.as_str()),
        Some(h) => {
            if !h.is_object() {
                return String::new();
            }
            proof {
                reveal_with_fuel(first_text, 6);
            }
            let a = string_value_of(h.get("remotePath"));
            if chars_of(a.as_str()).len() > 0 {
                return a;
            }
            let b = string_value_of(h.get("remoteWorkspaceRoot"));
            if chars_of(b.as_str()).len() > 0 {
                return b;
            }
            let c = string_value_of(h.get("workspaceRoot"));
            if chars_of(c.as_str()).len() > 0 {
                return c;
            }
            let d = string_value_of(h.get("path"));
            if chars_of(d.as_str()).len() > 0 {
                return d;
            }
            let e = string_value_of(h.get("cwd"));
            if chars_of(e.as_str()).len() > 0 {
                return e;
            }
            String::new()
        },
        None => String::new(),
    }
}

/// The host a thread hint names: its `hostId`, else its `remoteHostId`.
pub open spec fn hint_host(hint: Option<JsonValue>) -> Seq<char> {
    match hint {
        Some(JsonValue::Object(m)) => {
            let h = string_value(get(JsonValue::Object(m), "hostId"@));
            if h.len() > 0 {
                h
            } else {
                string_value(get(JsonValue::Object(m), "remoteHostId"@))
            }
        },
        _ => Seq::empty(),
    }
}

/// `host_id_from_hint`.
pub fn host_id_from_hint(hint: Option<&JsonValue>) -> (r: String)
    ensures
        r@ == hint_host(
            match hint {
                Some(h) => Some(*h),
                None => None,
            },
        ),
{
    match hint {
        Some(h) => {
            if !h.is_object() {
                return String::new();
            }
            let a = string_value_of(h.get("hostId"));
            if chars_of(a.as_str()).len() > 0 {
                a
            } else {
                string_value_of(h.get("remoteHostId"))
            }
        },
        None => String::new(),
    }
}

/// The host of the first project, in display order, whose directory holds
/// `remote_path`.
pub open spec fn matching_host(arr: Seq<JsonValue>, order: Seq<int>, remote_path: Seq<char>) -> Option<
    Seq<char>,
>
    decreases order.len(),
{
    if order.len() == 0 {
        None
    } else if path_matches(remote_path, string_value(get(arr[order[0]], "remotePath"@))) {
        Some(string_value(get(arr[order[0]], "hostId"@)))
    } else {
        matching_host(arr, order.drop_first(), remote_path)
    }
}

/// The host a remote path belongs to: the preferred one if given, else the
/// host of the first project holding the path, else the selected host.
pub open spec fn host_for_path(state: JsonValue, preferred: Seq<char>, remote_path: Seq<char>) -> Seq<char> {
    if preferred.len() > 0 {
        preferred
    } else {
        match matching_host(remote_projects(state), ordered_indices(state), remote_path) {
            Some(h) => h,
            None => string_value(get(state, "selected-remote-host-id"@)),
        }
    }
}

/// `host_id_for_remote_path`.
pub fn host_id_for_remote_path(state: &JsonValue, preferred_host_id: &str, remote_path: &str) -> (r:
    String)
    ensures
        r@ == host_for_path(*state, preferred_host_id@, remote_path@),
{
    let pref = chars_of(preferred_host_id);
    if pref.len() > 0 {
        return crate::text::string_from_chars(&pref);
    }
    let order = ordered_remote_projects(state);
    let empty: Vec<JsonValue> = Vec::new();
    let arr: &Vec<JsonValue> = match state.get("remote-projects") {
        Some(v) => match v.as_array() {
            Some(a) => a,
            None => &empty,
        },
        None => &empty,
    };
    let ghost ord = ordered_indices(*state);
    proof {
        assert(arr@ == remote_projects(*state));
        lemma_order_picks_in_range(arr@, project_order(*state));
        lemma_rest_picks_in_range(arr@, order_picks(arr@, project_order(*state)), arr@.len() as int);
        assert forall|k: int| 0 <= k < ord.len() implies 0 <= #[trigger] ord[k] < arr@.len() by {
            let picked = order_picks(arr@, project_order(*state));
            if k >= picked.len() {
                assert(ord[k] == rest_picks(arr@, picked, arr@.len() as int)[k - picked.len()]);
            }
        }
        assert(ord.skip(0) =~= ord);
    }
    let mut k: usize = 0;
    while k < order.len()
        invariant
            k <= order@.len(),
            order@.len() == ord.len(),
            forall|q: int| 0 <= q < order@.len() ==> #[trigger] order@[q] as int == ord[q],
            forall|q: int| 0 <= q < ord.len() ==> 0 <= #[trigger] ord[q] < arr@.len(),
            matching_host(arr@, ord, remote_path@) == matching_host(arr@, ord.skip(k as int), remote_path@),
            preferred_host_id@.len() == 0,
            arr@ == remote_projects(*state),
            ord == ordered_indices(*state),
        decreases order.len() - k,
    {
        let p = &arr[order[k]];
        let path = string_value_of(p.get("remotePath"));
        proof {
            assert(ord.skip(k as int)[0] == ord[k as int]);
            assert(ord.skip(k as int).drop_first() =~= ord.skip(k + 1));
        }
        if project_path_matches(remote_path, path.as_str()) {
            let h = string_value_of(p.get("hostId"));
            proof {
                assert(*p == arr@[ord[k as int]]);
                assert(matching_host(arr@, ord.skip(k as int), remote_path@) == Some(h@));
            }
            return h;
        }
        k = k + 1;
    }
    proof {
        assert(ord.skip(k as int) =~= Seq::<int>::empty());
        assert(matching_host(arr@, ord, remote_path@) is None);
    }
    string_value_of(state.get("selected-remote-host-id"))
}

proof fn lemma_rest_picks_in_range(arr: Seq<JsonValue>, picked: Seq<int>, upto: int)
    requires
        upto <= arr.len(),
    ensures
        forall|j: int|
            0 <= j < rest_picks(arr, picked, upto).len() ==> 0 <= #[trigger] rest_picks(arr, picked, upto)[j]
                < arr.len(),
    decreases upto,
{
    if upto > 0 {
        lemma_rest_picks_in_range(arr, picked, upto - 1);
        let acc = rest_picks(arr, picked, upto - 1);
        let i = upto - 1;
        if i < arr.len() && arr[i] is Object && !id_picked(arr, picked, entry_id(arr[i])) {
            assert(rest_picks(arr, picked, upto) == acc.push(i));
            assert forall|j: int| 0 <= j < acc.push(i).len() implies 0 <= #[trigger] acc.push(i)[j]
                < arr.len() by {
                if j < acc.len() {
                    assert(acc.push(i)[j] == acc[j]);
                }
            }
        }
    }
}

} // verus!
