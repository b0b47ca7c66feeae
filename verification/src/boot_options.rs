//! UEFI boot options: the `BootOrder` and `BootCurrent` variables as values,
//! the choice of the entry to reboot into, and the edits an image install
//! makes to the boot order.

use vstd::prelude::*;
use crate::le::le_value;

verus! {

/// Whether a boot option id is a plain `Boot####` entry (not a
/// firmware-reserved one).
pub open spec fn is_os_entry(id: u16) -> bool {
    id < 0x2000
}

/// The boot options as read from the firmware: the option booted last and
/// the boot order.
pub struct BootOptions {
    pub current: u16,
    pub order: Vec<u16>,
}

/// Index of the first occurrence of `x` in `s` at or after `i`; -1 when none.
pub open spec fn index_from(s: Seq<u16>, x: u16, i: int) -> int
    decreases s.len() - i,
{
    if i >= s.len() || i < 0 {
        -1
    } else if s[i] == x {
        i
    } else {
        index_from(s, x, i + 1)
    }
}

/// The first entry of `s` from position `from` on that is an OS entry.
pub open spec fn first_os_entry_from(s: Seq<u16>, from: int) -> Option<u16>
    decreases s.len() - from,
{
    if from >= s.len() || from < 0 {
        None
    } else if is_os_entry(s[from]) {
        Some(s[from])
    } else {
        first_os_entry_from(s, from + 1)
    }
}

/// The option to reboot into: the first OS entry after the current option
/// in the boot order (from the start when the current option is not in it).
pub open spec fn spec_reboot_target(order: Seq<u16>, current: u16) -> Option<u16> {
    first_os_entry_from(order, index_from(order, current, 0) + 1)
}

impl BootOptions {
    /// The option to reboot into: the first entry below `0x2000` that comes
    /// after the current option in the boot order, or the first such entry
    /// of the whole order when the current option is not in it.
    pub fn reboot_target(&self) -> (r: Option<u16>)
        ensures
            r == spec_reboot_target(self.order@, self.current),
    {
        let n = self.order.len();
        let mut i: usize = 0;
        let mut found = false;
        while i < n && !found
            invariant
                n == self.order@.len(),
                i <= n,
                !found ==> index_from(self.order@, self.current, 0) == index_from(self.order@, self.current, i as int),
                found ==> i < n && index_from(self.order@, self.current, 0) == i,
            decreases n - i + (if found { 0int } else { 1int }),
        {
            if self.order[i] == self.current {
                found = true;
            } else {
                i = i + 1;
            }
        }
        let skip: usize = if found { i + 1 } else { 0 };
        proof {
            if !found {
                assert(index_from(self.order@, self.current, i as int) == -1);
            }
            assert(skip as int == index_from(self.order@, self.current, 0) + 1);
        }
        let mut j: usize = skip;
        while j < n
            invariant
                n == self.order@.len(),
                skip <= j <= n,
                skip as int == index_from(self.order@, self.current, 0) + 1,
                first_os_entry_from(self.order@, skip as int) == first_os_entry_from(self.order@, j as int),
            decreases n - j,
        {
            if self.order[j] < 0x2000 {
                proof {
                    assert(first_os_entry_from(self.order@, j as int) == Some(self.order@[j as int]));

                }
                return Some(self.order[j]);
            }
            j = j + 1;
        }
        None
    }
}

/// Little-endian 16-bit words of a byte string of even length.
pub open spec fn words_of(bytes: Seq<u8>) -> Seq<u16> {
    Seq::new(bytes.len() / 2, |i: int| (bytes[2 * i] + 256 * bytes[2 * i + 1]) as u16)
}

/// Decodes the `BootOrder` variable: consecutive little-endian `u16`s.
pub fn decode_order(bytes: &[u8]) -> (r: Vec<u16>)
    requires
        bytes@.len() % 2 == 0,
    ensures
        r@ == words_of(bytes@),
{
    let mut out: Vec<u16> = Vec::new();
    let len = bytes.len();
    let n = len / 2;
    let mut i: usize = 0;
    while i < n
        invariant
            len == bytes@.len(),
            n == len / 2,
            i <= n,
            out@ =~= words_of(bytes@).take(i as int),
        decreases n - i,
    {
        let lo = bytes[2 * i] as u16;
        let hi = bytes[2 * i + 1] as u16;
        out.push(lo + 256 * hi);
        i = i + 1;
    }
    out
}

/// Encodes a boot order as consecutive little-endian `u16`s.
pub fn encode_order(order: &[u16]) -> (r: Vec<u8>)
    ensures
        r@.len() == 2 * order@.len(),
        forall|i: int| 0 <= i < order@.len() ==> #[trigger] r@[2 * i] == order@[i] % 256 && r@[2 * i + 1] == order@[i] / 256,
{
    let mut out: Vec<u8> = Vec::new();
    let mut i: usize = 0;
    while i < order.len()
        invariant
            i <= order@.len(),
            out@.len() == 2 * i,
            forall|k: int| 0 <= k < i ==> #[trigger] out@[2 * k] == order@[k] % 256 && out@[2 * k + 1] == order@[k] / 256,
        decreases order@.len() - i,
    {
        let x = order[i];
        let ghost before = out@;
        out.push((x % 256) as u8);
        out.push((x / 256) as u8);
        proof {
            assert forall|k: int| 0 <= k < i + 1 implies #[trigger] out@[2 * k] == order@[k] % 256 && out@[2 * k
                + 1] == order@[k] / 256 by {
                if k < i {
                    assert(out@[2 * k] == before[2 * k]);
                    assert(out@[2 * k + 1] == before[2 * k + 1]);
                }
            }
        }
        i = i + 1;
    }
    out
}

/// Law: decoding an encoded boot order gives it back.
pub proof fn lemma_order_round_trip(order: Seq<u16>, bytes: Seq<u8>)
    requires
        bytes.len() == 2 * order.len(),
        forall|i: int| 0 <= i < order.len() ==> #[trigger] bytes[2 * i] == order[i] % 256 && bytes[2 * i + 1] == order[i] / 256,
    ensures
        words_of(bytes) == order,
{
    assert forall|i: int| 0 <= i < order.len() implies #[trigger] words_of(bytes)[i] == order[i] by {
        assert(bytes[2 * i] == order[i] % 256);
    }
    assert(words_of(bytes) =~= order);
}

/// Decodes the `BootCurrent` variable, a little-endian `u16`.
pub fn decode_current(bytes: &[u8]) -> (r: u16)
    requires
        bytes@.len() == 2,
    ensures
        r == bytes@[0] + 256 * bytes@[1],
{
    bytes[0] as u16 + 256 * (bytes[1] as u16)
}

/// Whether a boot option is not `id`.
pub open spec fn other_than(id: u16) -> spec_fn(u16) -> bool {
    |x: u16| x != id
}

/// The boot order with `id` second, and nowhere else.
pub open spec fn promoted(order: Seq<u16>, id: u16) -> Seq<u16> {
    order.filter(other_than(id)).insert(1, id)
}

/// Puts `id` second in the boot order (after the option that boots this
/// agent), removing it from wherever else it was.
pub fn promote_second(order: &Vec<u16>, id: u16) -> (r: Vec<u16>)
    requires
        exists|i: int| 0 <= i < order@.len() && order@[i] != id,
    ensures
        r@ == promoted(order@, id),
{
    let mut kept: Vec<u16> = Vec::new();
    let mut i: usize = 0;
    while i < order.len()
        invariant
            i <= order@.len(),
            kept@ == order@.take(i as int).filter(other_than(id)),
        decreases order@.len() - i,
    {
        proof {
            assert(order@.take(i as int + 1).drop_last() =~= order@.take(i as int));
            reveal(Seq::filter);
        }
        if order[i] != id {
            kept.push(order[i]);
        }
        i = i + 1;
    }
    proof {
        assert(order@.take(order@.len() as int) =~= order@);
        let w = choose|w: int| 0 <= w < order@.len() && order@[w] != id;
        lemma_filter_keeps(order@, id, w);
    }
    kept.insert(1, id);
    kept
}

proof fn lemma_filter_keeps(s: Seq<u16>, id: u16, w: int)
    requires
        0 <= w < s.len(),
        s[w] != id,
    ensures
        s.filter(other_than(id)).len() >= 1,
    decreases s.len(),
{
    reveal(Seq::filter);
    if w < s.len() - 1 {
        lemma_filter_keeps(s.drop_last(), id, w);
    }
}

/// The boot order with `id` in place of the reboot target `target`, or
/// appended when there is none.
pub open spec fn installed(order: Seq<u16>, target: Option<u16>, id: u16) -> Seq<u16> {
    match target {
        Some(t) => replaced(order, t, id),
        None => order.push(id),
    }
}

/// `order` with every `t` replaced by `id`.
pub open spec fn replaced(order: Seq<u16>, t: u16, id: u16) -> Seq<u16> {
    order.map_values(|x: u16| if x != t { x } else { id })
}

/// Puts `id` in place of the reboot target in the boot order, or at its end
/// when there is no reboot target.
pub fn install_in_order(order: &Vec<u16>, target: Option<u16>, id: u16) -> (r: Vec<u16>)
    ensures
        r@ == installed(order@, target, id),
{
    let mut out: Vec<u16> = Vec::new();
    match target {
        Some(t) => {
            let mut i: usize = 0;
            while i < order.len()
                invariant
                    i <= order@.len(),
                    out@ =~= order@.take(i as int).map_values(|x: u16| if x != t { x } else { id }),
                decreases order@.len() - i,
            {
                let x = order[i];
                out.push(if x != t { x } else { id });
                i = i + 1;
            }
            proof {
                assert(order@.take(order@.len() as int) =~= order@);
            }
        },
        None => {
            let mut i: usize = 0;
            while i < order.len()
                invariant
                    i <= order@.len(),
                    out@ =~= order@.take(i as int),
                decreases order@.len() - i,
            {
                out.push(order[i]);
                i = i + 1;
            }
            out.push(id);
            proof {
                assert(order@.take(order@.len() as int) =~= order@);
            }
        },
    }
    out
}

/// The name of the variable of boot option `id`: `Boot` and four upper-case
/// hexadecimal digits, as ASCII.
pub fn boot_variable_name(id: u16) -> (r: Vec<u8>)
    ensures
        r@.len() == 8,
        r@.subrange(0, 4) == seq![66u8, 111u8, 111u8, 116u8],
        forall|k: int| 0 <= k < 4 ==> #[trigger] r@[4 + k] == hex_digit(((id as int) / pow16(3 - k)) % 16),
{
    let mut out: Vec<u8> = Vec::new();
    out.push(66u8);
    out.push(111u8);
    out.push(111u8);
    out.push(116u8);
    let d0 = id / 4096;
    let d1 = (id / 256) % 16;
    let d2 = (id / 16) % 16;
    let d3 = id % 16;
    out.push(hex_char(d0 as u8));
    out.push(hex_char(d1 as u8));
    out.push(hex_char(d2 as u8));
    out.push(hex_char(d3 as u8));
    proof {
        assert(pow16(0) == 1 && pow16(1) == 16 && pow16(2) == 256 && pow16(3) == 4096);
        assert(out@.subrange(0, 4) =~= seq![66u8, 111u8, 111u8, 116u8]);
        assert((id as int / 4096) % 16 == id as int / 4096);
    }
    out
}

/// `16^k` for small `k`.
pub open spec fn pow16(k: int) -> int {
    if k <= 0 {
        1
    } else if k == 1 {
        16
    } else if k == 2 {
        256
    } else {
        4096
    }
}

/// ASCII upper-case hexadecimal digit of `d` (below 16).
pub open spec fn hex_digit(d: int) -> u8 {
    if d < 10 {
        (48 + d) as u8
    } else {
        (55 + d) as u8
    }
}

fn hex_char(d: u8) -> (r: u8)
    requires
        d < 16,
    ensures
        r == hex_digit(d as int),
{
    if d < 10 {
        48 + d
    } else {
        55 + d
    }
}

/// The 16-bit unit `k` of the description (from byte 6 on) is NUL.
pub open spec fn nul_unit(entry: Seq<u8>, k: int) -> bool {
    entry[6 + 2 * k] == 0 && entry[6 + 2 * k + 1] == 0
}

/// Where the description of a boot entry ends: just after the first
/// 16-bit NUL at an even offset from byte 6 on, counted from byte 6;
/// `None` when there is no such NUL.
pub fn description_end(entry: &[u8]) -> (r: Option<usize>)
    requires
        entry@.len() >= 6,
    ensures
        r matches Some(e) ==> {
            &&& e >= 2 && e % 2 == 0
            &&& 6 + e <= entry@.len()
            &&& entry@[6 + e - 2] == 0 && entry@[6 + e - 1] == 0
            &&& forall|k: int| 0 <= k < (e - 2) / 2 ==> !#[trigger] nul_unit(entry@, k)
        },
        r is None ==> forall|k: int| 0 <= k && 6 + 2 * k + 1 < entry@.len() ==> !#[trigger] nul_unit(entry@, k),
{
    let n = entry.len();
    let m = (n - 6) / 2;
    let mut k: usize = 0;
    while k < m
        invariant
            n == entry@.len(),
            n >= 6,
            m == (n - 6) / 2,
            k <= m,
            forall|kk: int| 0 <= kk < k ==> !#[trigger] nul_unit(entry@, kk),
        decreases m - k,
    {
        if entry[6 + 2 * k] == 0 && entry[6 + 2 * k + 1] == 0 {
            return Some(2 * k + 2);
        }
        k = k + 1;
    }
    None
}

proof fn lemma_index_range(s: Seq<u16>, x: u16, i: int)
    requires
        0 <= i,
    ensures
        index_from(s, x, i) == -1 || i <= index_from(s, x, i) < s.len(),
    decreases s.len() - i,
{
    if i < s.len() && s[i] != x {
        lemma_index_range(s, x, i + 1);
    }
}

proof fn lemma_index_after_replace(s: Seq<u16>, x: u16, t: u16, id: u16, i: int)
    requires
        0 <= i,
        x != t,
        x != id,
    ensures
        index_from(replaced(s, t, id), x, i) == index_from(s, x, i),
    decreases s.len() - i,
{
    if i < s.len() {
        lemma_index_after_replace(s, x, t, id, i + 1);
    }
}

proof fn lemma_index_after_push(s: Seq<u16>, x: u16, id: u16, i: int)
    requires
        0 <= i,
        x != id,
    ensures
        index_from(s.push(id), x, i) == index_from(s, x, i),
    decreases s.len() + 1 - i,
{
    if i <= s.len() {
        lemma_index_after_push(s, x, id, i + 1);
    }
}

proof fn lemma_first_after_replace(s: Seq<u16>, t: u16, id: u16, from: int)
    requires
        0 <= from,
        first_os_entry_from(s, from) == Some(t),
        is_os_entry(id),
    ensures
        first_os_entry_from(replaced(s, t, id), from) == Some(id),
    decreases s.len() - from,
{
    if !is_os_entry(s[from]) {
        lemma_first_after_replace(s, t, id, from + 1);
        lemma_first_is_os(s, from + 1);
    }
}

proof fn lemma_first_is_os(s: Seq<u16>, from: int)
    requires
        first_os_entry_from(s, from) is Some,
    ensures
        is_os_entry(first_os_entry_from(s, from)->0),
    decreases s.len() - from,
{
    if from >= 0 && from < s.len() && !is_os_entry(s[from]) {
        lemma_first_is_os(s, from + 1);
    }
}

proof fn lemma_first_after_push(s: Seq<u16>, id: u16, from: int)
    requires
        0 <= from <= s.len(),
        first_os_entry_from(s, from) is None,
        is_os_entry(id),
    ensures
        first_os_entry_from(s.push(id), from) == Some(id),
    decreases s.len() - from,
{
    if from < s.len() {
        lemma_first_after_push(s, id, from + 1);
    }
}

/// Once an image's boot option `id` (an OS entry, other than the current
/// option) is installed in place of the reboot target, or appended when
/// there is none, rebooting into the OS from the same current option boots
/// the image. This holds unless the reboot target was the current option
/// itself.
pub proof fn lemma_install_sets_reboot_target(order: Seq<u16>, current: u16, id: u16)
    requires
        is_os_entry(id),
        id != current,
        spec_reboot_target(order, current) != Some(current),
    ensures
        spec_reboot_target(installed(order, spec_reboot_target(order, current), id), current) == Some(id),
{
    let target = spec_reboot_target(order, current);
    let from = index_from(order, current, 0) + 1;
    lemma_index_range(order, current, 0);
    match target {
        Some(t) => {
            lemma_index_after_replace(order, current, t, id, 0);
            lemma_first_after_replace(order, t, id, from);
        },
        None => {
            lemma_index_after_push(order, current, id, 0);
            lemma_first_after_push(order, id, from);
        },
    }
}

/// After the image's boot option `id` is moved to second place, right
/// after the current option at the head of the boot order, rebooting into
/// the OS boots the image.
pub proof fn lemma_promote_sets_reboot_target(order: Seq<u16>, current: u16, id: u16)
    requires
        order.len() > 0,
        order[0] == current,
        current != id,
        is_os_entry(id),
    ensures
        spec_reboot_target(promoted(order, id), current) == Some(id),
{
    let rest = order.drop_first();
    assert(order =~= seq![order[0]] + rest);
    rest.lemma_filter_prepend(order[0], other_than(id));
    let f = order.filter(other_than(id));
    assert(f == seq![current] + rest.filter(other_than(id)));
    let r = promoted(order, id);
    assert(r[0] == current);
    assert(r[1] == id);
    assert(index_from(r, current, 0) == 0);
}

} // verus!
