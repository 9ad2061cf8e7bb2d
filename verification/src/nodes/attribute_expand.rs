//! The "Attribute Expand" node, which grows or shrinks an attribute over neighbouring elements.

use vstd::prelude::*;
use crate::text_map::TextMap;
use crate::graph::NodeDefinition;
use crate::nodes::{geometry_in, geometry_out, geometry_node};
use crate::nodes::expand_utils::{ExpandMode, neighbor_seqs};
use crate::params::{NodeParams, ParamValue, text_entry, text_param};
use crate::text::owned;
use crate::topology::mask_at;

verus! {

/// The node kind's name.
pub const NAME: &'static str = "Attribute Expand";

/// The definition of the "Attribute Expand" node: an operator with geometry input "in" and one geometry output.
pub fn definition() -> (def: NodeDefinition)
    ensures
        geometry_node(def, NAME@, "Operators"@, seq!["in"@], seq!["out"@]),
{
    let def = NodeDefinition {
        name: owned(NAME),
        category: owned("Operators"),
        inputs: vec![geometry_in("in")],
        outputs: vec![geometry_out("out")],
    };
    assert(def.inputs@ =~= seq![def.inputs@[0]]);
    assert(def.outputs@ =~= seq![def.outputs@[0]]);
    def
}

/// The mode an integer parameter stands for: 1 contracts, anything else expands.
pub open spec fn expand_mode_of(i: i32) -> ExpandMode {
    if i == 1 { ExpandMode::Contract } else { ExpandMode::Expand }
}

/// The mode chosen by the `expand_mode` parameter (default 0, expanding).
pub fn expand_mode_from_params(params: &NodeParams) -> (mode: ExpandMode)
    requires
        params.values.wf(),
    ensures
        mode == expand_mode_of(params.int_or("expand_mode"@, 0)),
{
    match params.get_int("expand_mode", 0) {
        1 => ExpandMode::Contract,
        _ => ExpandMode::Expand,
    }
}

/// The larger value when expanding, the smaller when contracting.
pub open spec fn pick(a: i32, b: i32, mode: ExpandMode) -> i32 {
    match mode {
        ExpandMode::Expand => if a >= b { a } else { b },
        ExpandMode::Contract => if a <= b { a } else { b },
    }
}

/// `start` combined with the values of the first `k` neighbours in `list`
/// (neighbours beyond `cur` are skipped).
pub open spec fn fold_neighbors(cur: Seq<i32>, list: Seq<usize>, k: int, start: i32, mode: ExpandMode) -> i32
    decreases k,
{
    if k <= 0 {
        start
    } else {
        let c = fold_neighbors(cur, list, k - 1, start, mode);
        let n = list[k - 1] as int;
        if n < cur.len() { pick(c, cur[n], mode) } else { c }
    }
}

/// Whether element `i` may change: no mask, or the mask selects it.
pub open spec fn may_change(mask: Option<Seq<bool>>, i: int) -> bool {
    match mask {
        Some(m) => mask_at(m, i),
        None => true,
    }
}

/// One step over the first `len` values: a value that may change and has
/// neighbours becomes the largest (or smallest) of itself and its neighbours.
pub open spec fn int_step(cur: Seq<i32>, nb: Seq<Seq<usize>>, mask: Option<Seq<bool>>, len: int, mode: ExpandMode) -> Seq<i32> {
    Seq::new(cur.len(), |i: int| if i < len && may_change(mask, i) && nb[i].len() > 0 {
        fold_neighbors(cur, nb[i], nb[i].len() as int, cur[i], mode)
    } else {
        cur[i]
    })
}

/// The values after `k` steps.
pub open spec fn int_iter(values: Seq<i32>, nb: Seq<Seq<usize>>, mask: Option<Seq<bool>>, len: int, mode: ExpandMode, k: nat) -> Seq<i32>
    decreases k,
{
    if k == 0 {
        values
    } else {
        int_step(int_iter(values, nb, mask, len, mode, (k - 1) as nat), nb, mask, len, mode)
    }
}

/// The mask as a sequence, where there is one.
pub open spec fn mask_view(mask: Option<&[bool]>) -> Option<Seq<bool>> {
    match mask {
        Some(m) => Some(m@),
        None => None,
    }
}

fn int_step_once(cur: &Vec<i32>, neighbors: &[Vec<usize>], mask: Option<&[bool]>, len: usize, mode: ExpandMode) -> (next: Vec<i32>)
    requires
        len <= cur@.len(),
        len <= neighbors@.len(),
    ensures
        next@ == int_step(cur@, neighbor_seqs(neighbors@), mask_view(mask), len as int, mode),
{
    let ghost nb = neighbor_seqs(neighbors@);
    let mut next: Vec<i32> = Vec::new();
    let mut i: usize = 0;
    while i < cur.len()
        invariant
            0 <= i <= cur@.len(),
            len <= cur@.len(),
            len <= neighbors@.len(),
            nb == neighbor_seqs(neighbors@),
            next@.len() == i,
            forall|j: int| 0 <= j < i ==> next@[j] == int_step(cur@, nb, mask_view(mask), len as int, mode)[j],
        decreases cur@.len() - i,
    {
        let mut value = cur[i];
        let selected = match mask {
            Some(m) => i < m.len() && m[i],
            None => true,
        };
        if i < len && selected {
            let list = &neighbors[i];
            assert(list@ == nb[i as int]);
            if list.len() > 0 {
                let mut k: usize = 0;
                while k < list.len()
                    invariant
                        0 <= k <= list@.len(),
                        value == fold_neighbors(cur@, list@, k as int, cur@[i as int], mode),
                    decreases list@.len() - k,
                {
                    let n = list[k];
                    if n < cur.len() {
                        let v = cur[n];
                        value = match mode {
                            ExpandMode::Expand => if value >= v { value } else { v },
                            ExpandMode::Contract => if value <= v { value } else { v },
                        };
                    }
                    k = k + 1;
                }
            }
        }
        next.push(value);
        i = i + 1;
    }
    assert(next@ =~= int_step(cur@, nb, mask_view(mask), len as int, mode));
    next
}

/// Grows (or shrinks) integer values `iterations` times over the neighbour
/// lists, changing only the values the mask selects; values beyond the shorter
/// of the values and the lists stay as they are.
pub fn expand_int(values: &[i32], neighbors: &[Vec<usize>], mask: Option<&[bool]>, iterations: usize, mode: ExpandMode) -> (out: Vec<i32>)
    ensures
        out@ == int_iter(
            values@,
            neighbor_seqs(neighbors@),
            mask_view(mask),
            if values@.len() < neighbors@.len() { values@.len() as int } else { neighbors@.len() as int },
            mode,
            iterations as nat,
        ),
{
    let len = if values.len() < neighbors.len() { values.len() } else { neighbors.len() };
    let mut current: Vec<i32> = Vec::new();
    let mut k: usize = 0;
    while k < values.len()
        invariant
            0 <= k <= values@.len(),
            current@ == values@.take(k as int),
        decreases values@.len() - k,
    {
        current.push(values[k]);
        k = k + 1;
        assert(current@ =~= values@.take(k as int));
    }
    assert(values@.take(values@.len() as int) =~= values@);
    if iterations == 0 || values.len() == 0 || len == 0 {
        proof {
            lemma_int_iter_fixed(values@, neighbor_seqs(neighbors@), mask_view(mask), len as int, mode, iterations as nat);
        }
        return current;
    }
    let mut it: usize = 0;
    while it < iterations
        invariant
            0 <= it <= iterations,
            len <= values@.len(),
            len <= neighbors@.len(),
            current@ == int_iter(values@, neighbor_seqs(neighbors@), mask_view(mask), len as int, mode, it as nat),
        decreases iterations - it,
    {
        proof {
            lemma_int_iter_len(values@, neighbor_seqs(neighbors@), mask_view(mask), len as int, mode, it as nat);
        }
        current = int_step_once(&current, neighbors, mask, len, mode);
        it = it + 1;
    }
    current
}

/// Steps keep the number of values.
proof fn lemma_int_iter_len(values: Seq<i32>, nb: Seq<Seq<usize>>, mask: Option<Seq<bool>>, len: int, mode: ExpandMode, k: nat)
    ensures
        int_iter(values, nb, mask, len, mode, k).len() == values.len(),
    decreases k,
{
    if k > 0 {
        lemma_int_iter_len(values, nb, mask, len, mode, (k - 1) as nat);
    }
}

/// With nothing to step over, or no step, the values stay as they are.
proof fn lemma_int_iter_fixed(values: Seq<i32>, nb: Seq<Seq<usize>>, mask: Option<Seq<bool>>, len: int, mode: ExpandMode, k: nat)
    requires
        k == 0 || values.len() == 0 || len <= 0,
    ensures
        int_iter(values, nb, mask, len, mode, k) == values,
    decreases k,
{
    if k > 0 {
        lemma_int_iter_fixed(values, nb, mask, len, mode, (k - 1) as nat);
        lemma_int_iter_len(values, nb, mask, len, mode, (k - 1) as nat);
        assert(int_step(values, nb, mask, len, mode) =~= values);
    }
}

/// The parameters a new "Attribute Expand" node starts with (floats held as their bit patterns): group "", group_type 0, attr "Cd", domain 0, expand_mode 0, iterations 1.
pub fn default_params() -> (params: NodeParams)
    ensures
        params.values.wf(),
        params.values@.dom() == set!["group"@, "group_type"@, "attr"@, "domain"@, "expand_mode"@, "iterations"@],
        text_entry(params.values@, "group"@, ""@),
        params.values@["group_type"@] == ParamValue::Int(0),
        text_entry(params.values@, "attr"@, "Cd"@),
        params.values@["domain"@] == ParamValue::Int(0),
        params.values@["expand_mode"@] == ParamValue::Int(0),
        params.values@["iterations"@] == ParamValue::Int(1),
{
    proof {
        reveal_strlit("group");
        reveal_strlit("group_type");
        reveal_strlit("attr");
        reveal_strlit("domain");
        reveal_strlit("expand_mode");
        reveal_strlit("iterations");
        assert("group"@.len() == 5 && "group"@[0] == 'g');
        assert("group_type"@.len() == 10 && "group_type"@[0] == 'g');
        assert("attr"@.len() == 4 && "attr"@[0] == 'a');
        assert("domain"@.len() == 6 && "domain"@[0] == 'd');
        assert("expand_mode"@.len() == 11 && "expand_mode"@[0] == 'e');
        assert("iterations"@.len() == 10 && "iterations"@[0] == 'i');
    }
    let mut values: TextMap<ParamValue> = TextMap::new();
    values.insert(owned("group"), text_param(""));
    values.insert(owned("group_type"), ParamValue::Int(0));
    values.insert(owned("attr"), text_param("Cd"));
    values.insert(owned("domain"), ParamValue::Int(0));
    values.insert(owned("expand_mode"), ParamValue::Int(0));
    values.insert(owned("iterations"), ParamValue::Int(1));
    NodeParams { values }
}

} // verus!
