//! The kernel's export table: the symbols a loadable module may import, by
//! name. What address each name stands for is the caller's to supply.

use vstd::prelude::*;
use vstd::string::StringSliceAdditionalSpecFns;
use crate::text::bytes_eq;

verus! {

/// Exactly the indices below `EXPORT_COUNT` have a name.
pub proof fn lemma_names_listed(i: usize)
    ensures
        export_name(i) is Some <==> i < EXPORT_COUNT,
{
}

/// `lookup` finds `name` exactly when one of the listed names is `name`,
/// and then gives the first such index.
pub proof fn lemma_lookup_iff_listed(name: Seq<u8>, k: int)
    requires
        0 <= k <= EXPORT_COUNT,
    ensures
        export_index_from(name, k) is Some <==> exists|i: int| k <= i < EXPORT_COUNT && #[trigger] export_name(i as usize)->0.spec_bytes() == name,
        export_index_from(name, k) matches Some(i) ==> k <= i < EXPORT_COUNT && export_name(i as usize)->0.spec_bytes() == name
            && forall|j: int| k <= j < i ==> #[trigger] export_name(j as usize)->0.spec_bytes() != name,
    decreases EXPORT_COUNT - k,
{
    if k < EXPORT_COUNT {
        lemma_lookup_iff_listed(name, k + 1);
        if export_name(k as usize)->0.spec_bytes() != name {
            if exists|i: int| k <= i < EXPORT_COUNT && #[trigger] export_name(i as usize)->0.spec_bytes() == name {
                let i = choose|i: int| k <= i < EXPORT_COUNT && #[trigger] export_name(i as usize)->0.spec_bytes() == name;
                assert(k + 1 <= i);
            }
        }
    }
}

/// The bytes of export `i`'s name: ASCII, so one byte per character.
proof fn lemma_export_bytes(i: int)
    requires
        0 <= i < EXPORT_COUNT,
    ensures
        export_name(i as usize)->0.spec_bytes().len() == export_name(i as usize)->0@.len(),
        export_name(i as usize)->0.spec_bytes().len() >= 4,
        forall|k: int| 0 <= k < export_name(i as usize)->0@.len() ==>
            #[trigger] export_name(i as usize)->0.spec_bytes()[k] == export_name(i as usize)->0@[k] as u8,
{
    broadcast use vstd::string::is_ascii_spec_bytes;
    reveal_strlit("munux_printk");
    reveal_strlit("munux_printk_u64");
    reveal_strlit("munux_register_chrdev");
    reveal_strlit("munux_unregister_chrdev");
    reveal_strlit("printk");
    reveal_strlit("kmalloc");
    reveal_strlit("kzalloc");
    reveal_strlit("kfree");
    reveal_strlit("memcpy");
    reveal_strlit("memmove");
    reveal_strlit("memset");
    reveal_strlit("strlen");
    reveal_strlit("__stack_chk_fail");
    reveal_strlit("copy_to_user");
    reveal_strlit("copy_from_user");
    reveal_strlit("misc_register");
    reveal_strlit("misc_deregister");
    reveal_strlit("register_chrdev");
    reveal_strlit("unregister_chrdev");
    reveal_strlit("jiffies");
    reveal_strlit("msleep");
    reveal_strlit("request_irq");
    reveal_strlit("free_irq");
    reveal_strlit("complete");
    reveal_strlit("wait_for_completion");
    reveal_strlit("wait_for_completion_timeout");
    reveal_strlit("spin_lock");
    reveal_strlit("spin_unlock");
    reveal_strlit("__spin_lock_irqsave");
    reveal_strlit("__spin_unlock_irqrestore");
    reveal_strlit("mutex_lock");
    reveal_strlit("mutex_unlock");
    assert(vstd::string::is_ascii(export_name(i as usize)->0));
}

/// No two exports share a name.
#[verifier::rlimit(100)]
pub proof fn lemma_export_names_distinct(i: int, j: int)
    requires
        0 <= i < EXPORT_COUNT,
        0 <= j < EXPORT_COUNT,
        i != j,
    ensures
        export_name(i as usize)->0.spec_bytes() != export_name(j as usize)->0.spec_bytes(),
{
    lemma_export_bytes(i);
    lemma_export_bytes(j);
    reveal_strlit("munux_printk");
    reveal_strlit("munux_printk_u64");
    reveal_strlit("munux_register_chrdev");
    reveal_strlit("munux_unregister_chrdev");
    reveal_strlit("printk");
    reveal_strlit("kmalloc");
    reveal_strlit("kzalloc");
    reveal_strlit("kfree");
    reveal_strlit("memcpy");
    reveal_strlit("memmove");
    reveal_strlit("memset");
    reveal_strlit("strlen");
    reveal_strlit("__stack_chk_fail");
    reveal_strlit("copy_to_user");
    reveal_strlit("copy_from_user");
    reveal_strlit("misc_register");
    reveal_strlit("misc_deregister");
    reveal_strlit("register_chrdev");
    reveal_strlit("unregister_chrdev");
    reveal_strlit("jiffies");
    reveal_strlit("msleep");
    reveal_strlit("request_irq");
    reveal_strlit("free_irq");
    reveal_strlit("complete");
    reveal_strlit("wait_for_completion");
    reveal_strlit("wait_for_completion_timeout");
    reveal_strlit("spin_lock");
    reveal_strlit("spin_unlock");
    reveal_strlit("__spin_lock_irqsave");
    reveal_strlit("__spin_unlock_irqrestore");
    reveal_strlit("mutex_lock");
    reveal_strlit("mutex_unlock");
    let a = export_name(i as usize)->0@;
    let b = export_name(j as usize)->0@;
    assert(a.len() != b.len() || a[1] != b[1] || a[3] != b[3]);
    if a.len() == b.len() {
        assert(export_name(i as usize)->0.spec_bytes()[1] == a[1] as u8);
        assert(export_name(i as usize)->0.spec_bytes()[3] == a[3] as u8);
        assert(export_name(j as usize)->0.spec_bytes()[1] == b[1] as u8);
        assert(export_name(j as usize)->0.spec_bytes()[3] == b[3] as u8);
    }
}

/// Number of exported symbols.
pub const EXPORT_COUNT: usize = 32;

/// Name of export `i`, in listing order.
pub open spec fn export_name(i: usize) -> Option<&'static str> {
    match i {
        0 => Some("munux_printk"),
        1 => Some("munux_printk_u64"),
        2 => Some("munux_register_chrdev"),
        3 => Some("munux_unregister_chrdev"),
        4 => Some("printk"),
        5 => Some("kmalloc"),
        6 => Some("kzalloc"),
        7 => Some("kfree"),
        8 => Some("memcpy"),
        9 => Some("memmove"),
        10 => Some("memset"),
        11 => Some("strlen"),
        12 => Some("__stack_chk_fail"),
        13 => Some("copy_to_user"),
        14 => Some("copy_from_user"),
        15 => Some("misc_register"),
        16 => Some("misc_deregister"),
        17 => Some("register_chrdev"),
        18 => Some("unregister_chrdev"),
        19 => Some("jiffies"),
        20 => Some("msleep"),
        21 => Some("request_irq"),
        22 => Some("free_irq"),
        23 => Some("complete"),
        24 => Some("wait_for_completion"),
        25 => Some("wait_for_completion_timeout"),
        26 => Some("spin_lock"),
        27 => Some("spin_unlock"),
        28 => Some("__spin_lock_irqsave"),
        29 => Some("__spin_unlock_irqrestore"),
        30 => Some("mutex_lock"),
        31 => Some("mutex_unlock"),
        _ => None,
    }
}

/// Index of the first export whose name is `name`, from `k` on.
pub open spec fn export_index_from(name: Seq<u8>, k: int) -> Option<int>
    decreases EXPORT_COUNT - k,
{
    if k < 0 || k >= EXPORT_COUNT {
        None
    } else if export_name(k as usize)->0.spec_bytes() == name {
        Some(k)
    } else {
        export_index_from(name, k + 1)
    }
}

/// Number of exported symbols.
pub fn count() -> (n: usize)
    ensures
        n == EXPORT_COUNT,
{
    EXPORT_COUNT
}

/// Name of export `i` (for listings).
pub fn name_at(i: usize) -> (r: Option<&'static str>)
    ensures
        r == export_name(i),
{
    match i {
        0 => Some("munux_printk"),
        1 => Some("munux_printk_u64"),
        2 => Some("munux_register_chrdev"),
        3 => Some("munux_unregister_chrdev"),
        4 => Some("printk"),
        5 => Some("kmalloc"),
        6 => Some("kzalloc"),
        7 => Some("kfree"),
        8 => Some("memcpy"),
        9 => Some("memmove"),
        10 => Some("memset"),
        11 => Some("strlen"),
        12 => Some("__stack_chk_fail"),
        13 => Some("copy_to_user"),
        14 => Some("copy_from_user"),
        15 => Some("misc_register"),
        16 => Some("misc_deregister"),
        17 => Some("register_chrdev"),
        18 => Some("unregister_chrdev"),
        19 => Some("jiffies"),
        20 => Some("msleep"),
        21 => Some("request_irq"),
        22 => Some("free_irq"),
        23 => Some("complete"),
        24 => Some("wait_for_completion"),
        25 => Some("wait_for_completion_timeout"),
        26 => Some("spin_lock"),
        27 => Some("spin_unlock"),
        28 => Some("__spin_lock_irqsave"),
        29 => Some("__spin_unlock_irqrestore"),
        30 => Some("mutex_lock"),
        31 => Some("mutex_unlock"),
        _ => None,
    }
}

/// Which export `name` names, if any.
pub fn lookup(name: &[u8]) -> (r: Option<usize>)
    ensures
        r == (match export_index_from(name@, 0) {
            Some(i) => Some(i as usize),
            None => None::<usize>,
        }),
{
    let mut i: usize = 0;
    while i < EXPORT_COUNT
        invariant
            i <= EXPORT_COUNT,
            export_index_from(name@, 0) == export_index_from(name@, i as int),
        decreases EXPORT_COUNT - i,
    {
        let s = match name_at(i) {
            Some(s) => s,
            None => return None,
        };
        if bytes_eq(name, s.as_bytes()) {
            return Some(i);
        }
        i = i + 1;
    }
    None
}

} // verus!
