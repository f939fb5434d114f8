//! The order in which the keys and groups of a desktop entry are written.

use vstd::prelude::*;

use core::cmp::Ordering;

verus! {

/// The groups that come first, in this order.
pub const GROUPS_ORDER: [&'static str; 1] = ["Desktop Entry"];

/// The keys that come first in a group, in this order.
pub const KEYMAP_ORDER: [&'static str; 25] = [
    "Name",
    "GenericName",
    "Comment",
    "Icon",
    "DBusActivatable",
    "Exec",
    "TryExec",
    "Categories",
    "Keywords",
    "Terminal",
    "MimeType",
    "PrefersNonDefaultGPU",
    "StartupNotify",
    "StartupWMClass",
    "Path",
    "Type",
    "URL",
    "SingleMainWindow",
    "NoDisplay",
    "Hidden",
    "OnlyShowIn",
    "NotShowIn",
    "Implements",
    "Version",
    "Actions",
];

/// Index of the first occurrence of `key` in `order`, if any.
pub open spec fn position_in(order: Seq<Seq<char>>, key: Seq<char>) -> Option<int> {
    if exists|i: int| 0 <= i < order.len() && order[i] == key {
        Some(choose|i: int| 0 <= i < order.len() && order[i] == key && forall|j: int| 0 <= j < i ==> order[j] != key)
    } else {
        None
    }
}

/// Lexicographic order of character sequences by code point, which is the
/// order of their UTF-8 bytes.
pub open spec fn lex_cmp(a: Seq<char>, b: Seq<char>) -> Ordering
    decreases a.len(),
{
    if a.len() == 0 {
        if b.len() == 0 { Ordering::Equal } else { Ordering::Less }
    } else if b.len() == 0 {
        Ordering::Greater
    } else if (a[0] as u32) < (b[0] as u32) {
        Ordering::Less
    } else if (a[0] as u32) > (b[0] as u32) {
        Ordering::Greater
    } else {
        lex_cmp(a.drop_first(), b.drop_first())
    }
}

pub open spec fn int_cmp(i: int, j: int) -> Ordering {
    if i < j { Ordering::Less } else if i > j { Ordering::Greater } else { Ordering::Equal }
}

/// Keys listed in `order` come first, by their place in it; the others come
/// after them, in lexicographic order.
pub open spec fn fixed_order_cmp(order: Seq<Seq<char>>, a: Seq<char>, b: Seq<char>) -> Ordering {
    match (position_in(order, a), position_in(order, b)) {
        (Some(i), Some(j)) => int_cmp(i, j),
        (Some(_), None) => Ordering::Less,
        (None, Some(_)) => Ordering::Greater,
        (None, None) => lex_cmp(a, b),
    }
}

pub open spec fn order_view(order: Seq<&str>) -> Seq<Seq<char>> {
    order.map_values(|k: &str| k@)
}

proof fn lemma_position_in(order: Seq<Seq<char>>, key: Seq<char>, i: int)
    requires
        0 <= i < order.len(),
        order[i] == key,
        forall|j: int| 0 <= j < i ==> order[j] != key,
    ensures
        position_in(order, key) == Some(i),
{
    let w = choose|k: int| 0 <= k < order.len() && order[k] == key && forall|j: int| 0 <= j < k ==> order[j] != key;
    assert(0 <= w < order.len() && order[w] == key);
    if w < i {
        assert(order[w] != key);
    } else if i < w {
        assert(order[i] != key);
    }
}

fn position(order: &[&str], key: &str) -> (r: Option<usize>)
    ensures
        r matches Some(i) ==> position_in(order_view(order@), key@) == Some(i as int),
        r is None ==> position_in(order_view(order@), key@) is None,
{
    let ghost v = order_view(order@);
    let mut i: usize = 0;
    while i < order.len()
        invariant
            i <= order@.len(),
            v == order_view(order@),
            forall|j: int| 0 <= j < i ==> v[j] != key@,
        decreases order@.len() - i,
    {
        if order[i].eq(key) {
            proof { lemma_position_in(v, key@, i as int); }
            return Some(i);
        }
        i = i + 1;
    }
    None
}

fn compare_text(a: &str, b: &str) -> (r: Ordering)
    ensures
        r == lex_cmp(a@, b@),
{
    let n = a.unicode_len();
    let m = b.unicode_len();
    let mut i: usize = 0;
    assert(a@.skip(0) =~= a@ && b@.skip(0) =~= b@);
    while i < n && i < m
        invariant
            n == a@.len(),
            m == b@.len(),
            i <= n,
            i <= m,
            lex_cmp(a@, b@) == lex_cmp(a@.skip(i as int), b@.skip(i as int)),
        decreases n - i,
    {
        let x = a.get_char(i);
        let y = b.get_char(i);
        assert(a@.skip(i as int)[0] == x && b@.skip(i as int)[0] == y);
        if (x as u32) < (y as u32) {
            return Ordering::Less;
        }
        if (x as u32) > (y as u32) {
            return Ordering::Greater;
        }
        assert(a@.skip(i as int).drop_first() =~= a@.skip(i + 1));
        assert(b@.skip(i as int).drop_first() =~= b@.skip(i + 1));
        i = i + 1;
    }
    if i < n {
        Ordering::Greater
    } else if i < m {
        Ordering::Less
    } else {
        Ordering::Equal
    }
}

/// Compares two keys: those listed in `fixed_order` come first, by their
/// place in it, and the others after them, in lexicographic order.
pub fn fixed_order_comparator(fixed_order: &[&str], a: &str, b: &str) -> (r: Ordering)
    ensures
        r == fixed_order_cmp(order_view(fixed_order@), a@, b@),
{
    let a_fixed_order = position(fixed_order, a);
    let b_fixed_order = position(fixed_order, b);
    match (a_fixed_order, b_fixed_order) {
        (Some(a_pos), Some(b_pos)) => {
            if a_pos < b_pos {
                Ordering::Less
            } else if a_pos > b_pos {
                Ordering::Greater
            } else {
                Ordering::Equal
            }
        },
        (Some(_), None) => Ordering::Less,
        (None, Some(_)) => Ordering::Greater,
        (None, None) => compare_text(a, b),
    }
}

} // verus!
