//! The values of one memory space: kept in address order, with no two of them on the same
//! address and no two under the same name.
use vstd::prelude::*;
use crate::device::{RawValue, ValueParam};
use crate::error_kind::{ConfigurationError, ModbusErrKind};

verus! {

/// The address ranges of the two values have an address in common.
pub open spec fn overlapping(a: ValueParam, b: ValueParam) -> bool {
    a.addr < b.end() && b.addr < a.end()
}

/// Some value of the sequence has that name.
pub open spec fn has_name(ds: Seq<ValueParam>, name: Seq<char>) -> bool {
    exists|i: int| 0 <= i < ds.len() && #[trigger] ds[i].name@ == name
}

/// Some value of the sequence shares an address with `param`.
pub open spec fn has_overlap(ds: Seq<ValueParam>, param: ValueParam) -> bool {
    exists|i: int| 0 <= i < ds.len() && overlapping(#[trigger] ds[i], param)
}

/// The values of one memory space are laid out well: each ends before the next begins,
/// none reaches beyond the last address, no name occurs twice, and all are bits or none is,
/// as the space demands.
pub open spec fn laid_out(ds: Seq<ValueParam>, bits: bool) -> bool {
    &&& forall|i: int, j: int|
        0 <= i < j < ds.len() ==> #[trigger] ds[i].end() <= (#[trigger] ds[j]).addr
    &&& forall|i: int, j: int|
        0 <= i < j < ds.len() ==> #[trigger] ds[i].name@ != #[trigger] ds[j].name@
    &&& forall|i: int| 0 <= i < ds.len() ==> #[trigger] ds[i].end() <= 0x1_0000
    &&& forall|i: int| 0 <= i < ds.len() ==> (#[trigger] ds[i].value is Bool) == bits
}

/// Why `param` cannot join the values of a space, if it cannot. The checks are made in this
/// order: its name and its range against the values that are there, then the end of its
/// range against the end of the address space, then its kind against the space.
pub open spec fn placement_error(ds: Seq<ValueParam>, bits: bool, param: ValueParam) -> Option<
    ModbusErrKind,
> {
    if has_name(ds, param.name@) {
        Some(ModbusErrKind::Configuration(ConfigurationError::DuplicateName))
    } else if has_overlap(ds, param) {
        Some(ModbusErrKind::Configuration(ConfigurationError::OverlappingRange))
    } else if param.end() > 0x1_0000 {
        Some(ModbusErrKind::Configuration(ConfigurationError::AddressRange))
    } else if (param.value is Bool) != bits {
        Some(ModbusErrKind::TypeMismatch)
    } else {
        None
    }
}

/// A value whose address range runs into that of a value of the space is refused as a
/// mistake of configuration, whatever else is true of it.
pub proof fn lemma_overlap_is_refused(ds: Seq<ValueParam>, bits: bool, param: ValueParam)
    requires
        has_overlap(ds, param),
    ensures
        placement_error(ds, bits, param) matches Some(ModbusErrKind::Configuration(_)),
{
}

/// Adds a value to a memory space, at the place that its address gives it. A value that
/// cannot join leaves the space as it was.
pub(crate) fn place(ds: &mut Vec<ValueParam>, bits: bool, param: ValueParam) -> (r: Result<
    (),
    ModbusErrKind,
>)
    requires
        laid_out(old(ds)@, bits),
    ensures
        laid_out(final(ds)@, bits),
        match placement_error(old(ds)@, bits, param) {
            Some(e) => r == Err::<(), ModbusErrKind>(e) && final(ds)@ == old(ds)@,
            None => r == Ok::<(), ModbusErrKind>(()) && exists|at: int|
                0 <= at <= old(ds)@.len() && final(ds)@ == #[trigger] old(ds)@.insert(at, param),
        },
{
    let end: u32 = param.addr as u32 + param.value.words() as u32;
    let mut duplicate = false;
    let mut overlap = false;
    let mut at: usize = 0;
    let mut i: usize = 0;
    while i < ds.len()
        invariant
            i <= ds.len(),
            at <= i,
            ds@ == old(ds)@,
            laid_out(ds@, bits),
            end == param.end(),
            duplicate == has_name(ds@.take(i as int), param.name@),
            overlap == has_overlap(ds@.take(i as int), param),
            forall|k: int| 0 <= k < at ==> (#[trigger] ds@[k]).addr < param.addr,
            forall|k: int| at <= k < i ==> (#[trigger] ds@[k]).addr >= param.addr,
        decreases ds.len() - i,
    {
        let ghost before = ds@.take(i as int);
        let ghost after = ds@.take(i as int + 1);
        let d = &ds[i];
        let d_end: u32 = d.addr as u32 + d.value.words() as u32;
        let same_name = d.name == param.name;
        let shares = (d.addr as u32) < end && (param.addr as u32) < d_end;
        proof {
            assert(after[i as int] == ds@[i as int]);
            assert forall|k: int| 0 <= k < i implies #[trigger] after[k] == before[k] by {}
            if has_name(before, param.name@) {
                let w = choose|k: int|
                    0 <= k < before.len() && #[trigger] before[k].name@ == param.name@;
                assert(after[w].name@ == param.name@);
            }
            if has_name(after, param.name@) && !same_name {
                let w = choose|k: int|
                    0 <= k < after.len() && #[trigger] after[k].name@ == param.name@;
                assert(before[w].name@ == param.name@);
            }
            if has_overlap(before, param) {
                let w = choose|k: int|
                    0 <= k < before.len() && overlapping(#[trigger] before[k], param);
                assert(overlapping(after[w], param));
            }
            if has_overlap(after, param) && !shares {
                let w = choose|k: int|
                    0 <= k < after.len() && overlapping(#[trigger] after[k], param);
                assert(overlapping(before[w], param));
            }
        }
        if same_name {
            duplicate = true;
        }
        if shares {
            overlap = true;
        }
        if d.addr < param.addr {
            proof {
                // the values are in address order, so none before this one was at or
                // behind the new address
                if at < i {
                    assert(ds@[at as int].end() <= ds@[i as int].addr);
                    assert(ds@[at as int].addr >= param.addr);
                }
            }
            at = i + 1;
        }
        i = i + 1;
    }
    proof {
        assert(ds@.take(ds@.len() as int) =~= ds@);
    }
    if duplicate {
        return Err(ModbusErrKind::Configuration(ConfigurationError::DuplicateName));
    }
    if overlap {
        return Err(ModbusErrKind::Configuration(ConfigurationError::OverlappingRange));
    }
    if end > 0x1_0000 {
        return Err(ModbusErrKind::Configuration(ConfigurationError::AddressRange));
    }
    let is_bit = match param.value {
        RawValue::Bool(_) => true,
        _ => false,
    };
    if is_bit != bits {
        return Err(ModbusErrKind::TypeMismatch);
    }
    let ghost old_ds = ds@;
    ds.insert(at, param);
    proof {
        let new_ds = ds@;
        assert(new_ds == old_ds.insert(at as int, param));
        assert forall|k: int| 0 <= k < old_ds.len() implies !overlapping(
            #[trigger] old_ds[k],
            param,
        ) by {}
        assert forall|k: int| 0 <= k < old_ds.len() implies #[trigger] old_ds[k].name@
            != param.name@ by {}
        assert forall|i: int, j: int| 0 <= i < j < new_ds.len() implies #[trigger] new_ds[i].end()
            <= (#[trigger] new_ds[j]).addr by {
            if j < at {
                assert(new_ds[i] == old_ds[i] && new_ds[j] == old_ds[j]);
            } else if j == at {
                assert(new_ds[i] == old_ds[i]);
                assert(!overlapping(old_ds[i], param));
            } else if i < at {
                assert(new_ds[i] == old_ds[i] && new_ds[j] == old_ds[j - 1]);
            } else if i == at {
                assert(new_ds[j] == old_ds[j - 1]);
                assert(!overlapping(old_ds[j - 1], param));
            } else {
                assert(new_ds[i] == old_ds[i - 1] && new_ds[j] == old_ds[j - 1]);
            }
        }
        assert forall|i: int, j: int| 0 <= i < j < new_ds.len() implies #[trigger] new_ds[i].name@
            != #[trigger] new_ds[j].name@ by {
            let a = if i < at { i } else { i - 1 };
            let b = if j < at { j } else { j - 1 };
            if i != at && j != at {
                assert(new_ds[i] == old_ds[a] && new_ds[j] == old_ds[b]);
            } else if i == at {
                assert(new_ds[j] == old_ds[b]);
            } else {
                assert(new_ds[i] == old_ds[a]);
            }
        }
        assert forall|i: int| 0 <= i < new_ds.len() implies #[trigger] new_ds[i].end()
            <= 0x1_0000 by {
            if i != at {
                let a = if i < at { i } else { i - 1 };
                assert(new_ds[i] == old_ds[a]);
            }
        }
        assert forall|i: int| 0 <= i < new_ds.len() implies (#[trigger] new_ds[i].value is Bool)
            == bits by {
            if i != at {
                let a = if i < at { i } else { i - 1 };
                assert(new_ds[i] == old_ds[a]);
            }
        }
    }
    Ok(())
}

/// What is left of a well laid out sequence without its first value is well laid out.
proof fn lemma_rest_is_laid_out(a: Seq<ValueParam>, bits: bool)
    requires
        laid_out(a, bits),
        a.len() > 0,
    ensures
        laid_out(a.drop_first(), bits),
{
    let rest = a.drop_first();
    assert forall|i: int, j: int| 0 <= i < j < rest.len() implies #[trigger] rest[i].end() <= (
    #[trigger] rest[j]).addr by {
        assert(a[i + 1].end() <= a[j + 1].addr);
    }
    assert forall|i: int, j: int| 0 <= i < j < rest.len() implies #[trigger] rest[i].name@
        != #[trigger] rest[j].name@ by {
        assert(a[i + 1].name@ != a[j + 1].name@);
    }
    assert forall|i: int| 0 <= i < rest.len() implies #[trigger] rest[i].end() <= 0x1_0000 by {
        assert(a[i + 1].end() <= 0x1_0000);
    }
    assert forall|i: int| 0 <= i < rest.len() implies (#[trigger] rest[i].value is Bool)
        == bits by {
        assert((a[i + 1].value is Bool) == bits);
    }
}

/// The layout of a memory space depends on which values it holds, and not on the order in
/// which they were registered: two well laid out sequences of the same values are the same
/// sequence.
pub proof fn lemma_layout_is_unique(a: Seq<ValueParam>, b: Seq<ValueParam>, bits: bool)
    requires
        laid_out(a, bits),
        laid_out(b, bits),
        forall|x: ValueParam| a.contains(x) <==> b.contains(x),
    ensures
        a == b,
    decreases a.len(),
{
    if a.len() == 0 {
        if b.len() > 0 {
            assert(b.contains(b[0]));
            assert(a.contains(b[0]));
        }
        assert(a =~= b);
    } else {
        assert(a.contains(a[0]));
        assert(b.contains(a[0]));
        let k = choose|k: int| 0 <= k < b.len() && b[k] == a[0];
        assert(b.contains(b[0]));
        assert(a.contains(b[0]));
        let m = choose|m: int| 0 <= m < a.len() && a[m] == b[0];
        if m > 0 {
            assert(a[0].end() <= a[m].addr);
            if k > 0 {
                assert(b[0].end() <= b[k].addr);
            }
        }
        assert(a[0] == b[0]);
        let rest_a = a.drop_first();
        let rest_b = b.drop_first();
        assert forall|x: ValueParam| rest_a.contains(x) <==> rest_b.contains(x) by {
            if rest_a.contains(x) {
                let i = choose|i: int| 0 <= i < rest_a.len() && rest_a[i] == x;
                assert(a[i + 1] == x);
                assert(a[0].end() <= a[i + 1].addr);
                assert(a.contains(x));
                assert(b.contains(x));
                let j = choose|j: int| 0 <= j < b.len() && b[j] == x;
                assert(rest_b[j - 1] == x);
            }
            if rest_b.contains(x) {
                let i = choose|i: int| 0 <= i < rest_b.len() && rest_b[i] == x;
                assert(b[i + 1] == x);
                assert(b[0].end() <= b[i + 1].addr);
                assert(b.contains(x));
                assert(a.contains(x));
                let j = choose|j: int| 0 <= j < a.len() && a[j] == x;
                assert(rest_a[j - 1] == x);
            }
        }
        lemma_rest_is_laid_out(a, bits);
        lemma_rest_is_laid_out(b, bits);
        lemma_layout_is_unique(rest_a, rest_b, bits);
        assert(a =~= seq![a[0]] + rest_a);
        assert(b =~= seq![b[0]] + rest_b);
    }
}

/// A sequence with one value more holds that value and what it held before.
proof fn lemma_insert_holds(ds: Seq<ValueParam>, at: int, param: ValueParam, x: ValueParam)
    requires
        0 <= at <= ds.len(),
    ensures
        ds.insert(at, param).contains(x) <==> x == param || ds.contains(x),
{
    let more = ds.insert(at, param);
    if more.contains(x) {
        let i = choose|i: int| 0 <= i < more.len() && more[i] == x;
        if i < at {
            assert(ds[i] == x);
        } else if i > at {
            assert(ds[i - 1] == x);
        }
    }
    if x == param {
        assert(more[at] == x);
    }
    if ds.contains(x) {
        let i = choose|i: int| 0 <= i < ds.len() && ds[i] == x;
        if i < at {
            assert(more[i] == x);
        } else {
            assert(more[i + 1] == x);
        }
    }
}

/// Two values may be registered in either order: where both orders are accepted, they leave
/// the memory space the same.
pub proof fn lemma_registration_commutes(
    ds: Seq<ValueParam>,
    bits: bool,
    p: ValueParam,
    q: ValueParam,
    p_first: Seq<ValueParam>,
    q_first: Seq<ValueParam>,
)
    requires
        laid_out(p_first, bits),
        laid_out(q_first, bits),
        exists|i: int, j: int|
            0 <= i <= ds.len() && 0 <= j <= ds.len() + 1 && p_first == #[trigger] ds.insert(
                i,
                p,
            ).insert(j, q),
        exists|i: int, j: int|
            0 <= i <= ds.len() && 0 <= j <= ds.len() + 1 && q_first == #[trigger] ds.insert(
                i,
                q,
            ).insert(j, p),
    ensures
        p_first == q_first,
{
    let (i, j) = choose|i: int, j: int|
        0 <= i <= ds.len() && 0 <= j <= ds.len() + 1 && p_first == #[trigger] ds.insert(
            i,
            p,
        ).insert(j, q);
    let (k, l) = choose|k: int, l: int|
        0 <= k <= ds.len() && 0 <= l <= ds.len() + 1 && q_first == #[trigger] ds.insert(
            k,
            q,
        ).insert(l, p);
    assert forall|x: ValueParam| p_first.contains(x) <==> q_first.contains(x) by {
        lemma_insert_holds(ds, i, p, x);
        lemma_insert_holds(ds.insert(i, p), j, q, x);
        lemma_insert_holds(ds, k, q, x);
        lemma_insert_holds(ds.insert(k, q), l, p, x);
    }
    lemma_layout_is_unique(p_first, q_first, bits);
}

} // verus!
