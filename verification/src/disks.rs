//! The detected storage drives: how each is named and labelled, and the list
//! sorted by mount point. Reading the drives from the system is left to the
//! caller.
use vstd::prelude::*;
use vstd::multiset::Multiset;

use crate::paths::chars_of;

verus! {

broadcast use vstd::seq_lib::group_to_multiset_ensures;

/// One storage drive, as the drive list shows it.
#[derive(Clone, Debug)]
pub struct DiskInfo {
    pub name: String,
    pub mount_point: String,
    pub total_space_bytes: u64,
    pub available_space_bytes: u64,
    pub file_system: String,
    pub is_removable: bool,
}

/// Name shown for a drive that reports none.
pub open spec fn unnamed_drive_spec() -> Seq<char> {
    "Storage Device"@
}

/// The name shown for a drive whose reported name is `raw`.
pub open spec fn display_name_spec(raw: Seq<char>) -> Seq<char> {
    if raw.len() == 0 {
        unnamed_drive_spec()
    } else {
        raw
    }
}

/// Lexicographic order on character sequences, comparing code points; for
/// strings it is the order of `str`'s `Ord` (UTF-8 keeps code point order).
pub open spec fn chars_le(a: Seq<char>, b: Seq<char>) -> bool
    decreases a.len(),
{
    if a.len() == 0 {
        true
    } else if b.len() == 0 {
        false
    } else if a[0] != b[0] {
        (a[0] as int) < (b[0] as int)
    } else {
        chars_le(a.drop_first(), b.drop_first())
    }
}

/// `x` comes no later than `y` in mount point order.
pub open spec fn mount_le(x: DiskInfo, y: DiskInfo) -> bool {
    chars_le(x.mount_point@, y.mount_point@)
}

/// `s` with `x` inserted after every element whose mount point is not after
/// that of `x`, given that `s` is sorted.
pub open spec fn insert_by_mount(s: Seq<DiskInfo>, x: DiskInfo) -> Seq<DiskInfo>
    decreases s.len(),
{
    if s.len() == 0 {
        seq![x]
    } else if mount_le(s.last(), x) {
        s.push(x)
    } else {
        insert_by_mount(s.drop_last(), x).push(s.last())
    }
}

/// `s` sorted by mount point, keeping drives with the same mount point in
/// their original order (a stable sort).
pub open spec fn sort_by_mount(s: Seq<DiskInfo>) -> Seq<DiskInfo>
    decreases s.len(),
{
    if s.len() == 0 {
        s
    } else {
        insert_by_mount(sort_by_mount(s.drop_last()), s.last())
    }
}

/// Every drive of `s` comes no later in mount point order than every drive
/// after it.
pub open spec fn sorted_by_mount(s: Seq<DiskInfo>) -> bool {
    forall|i: int, j: int| 0 <= i < j < s.len() ==> #[trigger] mount_le(s[i], s[j])
}

impl DiskInfo {
    /// A drive entry; a drive that reports an empty name is shown as
    /// "Storage Device".
    pub fn from_raw(
        raw_name: String,
        mount_point: String,
        total_space_bytes: u64,
        available_space_bytes: u64,
        file_system: String,
        is_removable: bool,
    ) -> (r: DiskInfo)
        ensures
            r.name@ == display_name_spec(raw_name@),
            r.mount_point == mount_point,
            r.total_space_bytes == total_space_bytes,
            r.available_space_bytes == available_space_bytes,
            r.file_system == file_system,
            r.is_removable == is_removable,
    {
        DiskInfo {
            name: display_name(raw_name),
            mount_point,
            total_space_bytes,
            available_space_bytes,
            file_system,
            is_removable,
        }
    }

    /// Tag of the drive in the drive selection menu.
    pub fn menu_tag(&self) -> (r: &'static str)
        ensures
            r@ == (if self.is_removable {
                "[USB/Ext]"@
            } else {
                "[Internal]"@
            }),
    {
        if self.is_removable {
            "[USB/Ext]"
        } else {
            "[Internal]"
        }
    }

    /// Kind of the drive in the drive listing.
    pub fn drive_type(&self) -> (r: &'static str)
        ensures
            r@ == (if self.is_removable {
                "USB / Removable"@
            } else {
                "Internal Drive"@
            }),
    {
        if self.is_removable {
            "USB / Removable"
        } else {
            "Internal Drive"
        }
    }
}

/// The name shown for a drive whose reported name is `raw`.
pub fn display_name(raw: String) -> (r: String)
    ensures
        r@ == display_name_spec(raw@),
{
    if raw.as_str().is_empty() {
        "Storage Device".to_owned()
    } else {
        raw
    }
}

/// The directory to benchmark after the user picked menu entry `selection`
/// from a menu that lists `disks` followed by one entry for the current
/// directory: the mount point of the picked drive, or `None` for the current
/// directory.
pub fn target_for_selection(disks: &Vec<DiskInfo>, selection: usize) -> (r: Option<String>)
    ensures
        selection < disks@.len() ==> (r matches Some(p) && p@ == disks@[selection as int].mount_point@),
        selection >= disks@.len() ==> r is None,
{
    if selection < disks.len() {
        Some(disks[selection].mount_point.clone())
    } else {
        None
    }
}

/// Whether `a` comes no later than `b` in lexicographic code point order.
pub fn chars_le_exec(a: &Vec<char>, b: &Vec<char>) -> (r: bool)
    ensures
        r == chars_le(a@, b@),
{
    let mut i: usize = 0;
    assert(a@.skip(0) =~= a@);
    assert(b@.skip(0) =~= b@);
    while i < a.len() && i < b.len()
        invariant
            i <= a.len(),
            i <= b.len(),
            chars_le(a@, b@) == chars_le(a@.skip(i as int), b@.skip(i as int)),
        decreases a.len() - i,
    {
        let ca = a[i];
        let cb = b[i];
        if ca != cb {
            return ca < cb;
        }
        assert(a@.skip(i as int).drop_first() =~= a@.skip(i + 1));
        assert(b@.skip(i as int).drop_first() =~= b@.skip(i + 1));
        i = i + 1;
    }
    a.len() <= b.len()
}

/// Whether drive `x` comes no later than drive `y` in mount point order.
fn mount_le_exec(x: &DiskInfo, y: &DiskInfo) -> (r: bool)
    ensures
        r == mount_le(*x, *y),
{
    let kx = chars_of(x.mount_point.as_str());
    let ky = chars_of(y.mount_point.as_str());
    chars_le_exec(&kx, &ky)
}

/// The drives sorted by mount point; drives with the same mount point keep
/// their order.
pub fn sort_by_mount_point(disks: Vec<DiskInfo>) -> (r: Vec<DiskInfo>)
    ensures
        r@ == sort_by_mount(disks@),
        sorted_by_mount(r@),
        r@.to_multiset() =~= disks@.to_multiset(),
{
    let ghost input = disks@;
    let mut rest = disks;
    let mut out: Vec<DiskInfo> = Vec::new();
    let mut k: usize = 0;
    let n = rest.len();
    assert(input.take(0) =~= Seq::<DiskInfo>::empty());
    assert(input.skip(0) =~= input);
    while k < n
        invariant
            n == input.len(),
            k <= n,
            out@ == sort_by_mount(input.take(k as int)),
            rest@ == input.skip(k as int),
        decreases n - k,
    {
        let x = rest.remove(0);
        let mut j = out.len();
        while j > 0 && !mount_le_exec(&out[j - 1], &x)
            invariant
                j <= out@.len(),
                forall|m: int| j <= m < out@.len() ==> !mount_le(#[trigger] out@[m], x),
            decreases j,
        {
            j = j - 1;
        }
        proof {
            lemma_insert_at(out@, x, j as int);
            assert(input.take(k + 1).drop_last() =~= input.take(k as int));
            assert(input.take(k + 1).last() == x);
        }
        out.insert(j, x);
        k = k + 1;
        assert(rest@ =~= input.skip(k as int));
    }
    assert(input.take(n as int) =~= input);
    proof {
        lemma_sort_by_mount_sorted(input);
        lemma_sort_by_mount_permutes(input);
    }
    out
}

/// Inserting at the first position from the end whose predecessor is not
/// after `x` is what `insert_by_mount` does.
proof fn lemma_insert_at(s: Seq<DiskInfo>, x: DiskInfo, j: int)
    requires
        0 <= j <= s.len(),
        forall|m: int| j <= m < s.len() ==> !mount_le(#[trigger] s[m], x),
        j > 0 ==> mount_le(s[j - 1], x),
    ensures
        insert_by_mount(s, x) == s.insert(j, x),
    decreases s.len(),
{
    if s.len() == 0 {
        assert(s.insert(j, x) =~= seq![x]);
    } else if mount_le(s.last(), x) {
        assert(j == s.len());
        assert(s.insert(j, x) =~= s.push(x));
    } else {
        let d = s.drop_last();
        assert(j < s.len());
        lemma_insert_at(d, x, j);
        assert(s.insert(j, x) =~= d.insert(j, x).push(s.last()));
    }
}

/// `chars_le` is reflexive.
pub proof fn lemma_chars_le_reflexive(a: Seq<char>)
    ensures
        chars_le(a, a),
    decreases a.len(),
{
    if a.len() > 0 {
        lemma_chars_le_reflexive(a.drop_first());
    }
}

/// Any two character sequences are ordered one way or the other.
pub proof fn lemma_chars_le_total(a: Seq<char>, b: Seq<char>)
    ensures
        chars_le(a, b) || chars_le(b, a),
    decreases a.len(),
{
    if a.len() > 0 && b.len() > 0 && a[0] == b[0] {
        lemma_chars_le_total(a.drop_first(), b.drop_first());
    }
}

/// `chars_le` is transitive.
pub proof fn lemma_chars_le_transitive(a: Seq<char>, b: Seq<char>, c: Seq<char>)
    requires
        chars_le(a, b),
        chars_le(b, c),
    ensures
        chars_le(a, c),
    decreases a.len(),
{
    if a.len() > 0 && b.len() > 0 && c.len() > 0 && a[0] == b[0] && b[0] == c[0] {
        lemma_chars_le_transitive(a.drop_first(), b.drop_first(), c.drop_first());
    }
}

/// `chars_le` is antisymmetric: sequences ordered both ways are equal.
pub proof fn lemma_chars_le_antisymmetric(a: Seq<char>, b: Seq<char>)
    requires
        chars_le(a, b),
        chars_le(b, a),
    ensures
        a == b,
    decreases a.len(),
{
    if a.len() > 0 && b.len() > 0 {
        lemma_chars_le_antisymmetric(a.drop_first(), b.drop_first());
        assert(a =~= seq![a[0]] + a.drop_first());
        assert(b =~= seq![b[0]] + b.drop_first());
    }
}

/// Inserting into a sorted list keeps it sorted, adds exactly `x`, and adds
/// nothing else.
proof fn lemma_insert_by_mount(s: Seq<DiskInfo>, x: DiskInfo)
    ensures
        insert_by_mount(s, x).len() == s.len() + 1,
        insert_by_mount(s, x).to_multiset() =~= s.to_multiset().insert(x),
        forall|i: int|
            0 <= i < insert_by_mount(s, x).len() ==> #[trigger] insert_by_mount(s, x)[i] == x
                || s.contains(insert_by_mount(s, x)[i]),
        sorted_by_mount(s) ==> sorted_by_mount(insert_by_mount(s, x)),
    decreases s.len(),
{
    let r = insert_by_mount(s, x);
    if s.len() == 0 {
        assert(r =~= Seq::<DiskInfo>::empty().push(x));
    } else if mount_le(s.last(), x) {
        if sorted_by_mount(s) {
            assert forall|i: int, j: int| 0 <= i < j < r.len() implies #[trigger] mount_le(
                r[i],
                r[j],
            ) by {
                if j == s.len() {
                    if i < s.len() - 1 {
                        assert(mount_le(s[i], s[s.len() - 1]));
                        lemma_chars_le_transitive(
                            s[i].mount_point@,
                            s.last().mount_point@,
                            x.mount_point@,
                        );
                    }
                } else {
                    assert(mount_le(s[i], s[j]));
                }
            }
        }
        assert forall|i: int| 0 <= i < r.len() implies #[trigger] r[i] == x || s.contains(r[i]) by {
            if i < s.len() {
                assert(s[i] == r[i]);
            }
        }
    } else {
        let d = s.drop_last();
        let last = s.last();
        let rd = insert_by_mount(d, x);
        lemma_insert_by_mount(d, x);
        assert(s =~= d.push(last));
        assert(r.to_multiset() =~= s.to_multiset().insert(x)) by {
            assert(r.to_multiset() =~= rd.to_multiset().insert(last));
            assert(s.to_multiset() =~= d.to_multiset().insert(last));
        }
        assert forall|i: int| 0 <= i < r.len() implies #[trigger] r[i] == x || s.contains(r[i]) by {
            if i < rd.len() {
                assert(r[i] == rd[i]);
                if rd[i] != x {
                    let k = choose|k: int| 0 <= k < d.len() && d[k] == rd[i];
                    assert(s[k] == d[k]);
                }
            } else {
                assert(r[i] == s[s.len() - 1]);
            }
        }
        if sorted_by_mount(s) {
            assert(sorted_by_mount(d)) by {
                assert forall|i: int, j: int| 0 <= i < j < d.len() implies #[trigger] mount_le(
                    d[i],
                    d[j],
                ) by {
                    assert(mount_le(s[i], s[j]));
                }
            }
            lemma_chars_le_total(last.mount_point@, x.mount_point@);
            assert forall|i: int, j: int| 0 <= i < j < r.len() implies #[trigger] mount_le(
                r[i],
                r[j],
            ) by {
                if j < rd.len() {
                    assert(mount_le(rd[i], rd[j]));
                } else {
                    assert(r[j] == last);
                    assert(r[i] == rd[i]);
                    if rd[i] == x {
                    } else {
                        assert(rd[i] == x || d.contains(rd[i]));
                        let k = choose|k: int| 0 <= k < d.len() && d[k] == rd[i];
                        assert(mount_le(s[k], s[s.len() - 1]));
                    }
                }
            }
        }
    }
}

/// Sorting by mount point yields a list in mount point order.
pub proof fn lemma_sort_by_mount_sorted(s: Seq<DiskInfo>)
    ensures
        sorted_by_mount(sort_by_mount(s)),
    decreases s.len(),
{
    if s.len() > 0 {
        lemma_sort_by_mount_sorted(s.drop_last());
        lemma_insert_by_mount(sort_by_mount(s.drop_last()), s.last());
    }
}

/// Sorting by mount point keeps every drive, each as often as before, and
/// adds none.
pub proof fn lemma_sort_by_mount_permutes(s: Seq<DiskInfo>)
    ensures
        sort_by_mount(s).to_multiset() =~= s.to_multiset(),
        sort_by_mount(s).len() == s.len(),
    decreases s.len(),
{
    if s.len() > 0 {
        let d = s.drop_last();
        lemma_sort_by_mount_permutes(d);
        lemma_insert_by_mount(sort_by_mount(d), s.last());
        assert(s =~= d.push(s.last()));
    }
}

/// A list that is already in mount point order comes back unchanged.
pub proof fn lemma_sort_by_mount_keeps_sorted(s: Seq<DiskInfo>)
    requires
        sorted_by_mount(s),
    ensures
        sort_by_mount(s) == s,
    decreases s.len(),
{
    if s.len() > 0 {
        let d = s.drop_last();
        assert(sorted_by_mount(d)) by {
            assert forall|i: int, j: int| 0 <= i < j < d.len() implies #[trigger] mount_le(
                d[i],
                d[j],
            ) by {
                assert(mount_le(s[i], s[j]));
            }
        }
        lemma_sort_by_mount_keeps_sorted(d);
        if d.len() > 0 {
            assert(mount_le(s[d.len() - 1], s[s.len() - 1]));
        }
        assert(s =~= d.push(s.last()));
    }
}

/// No two positions of `s` hold drives with the same mount point.
pub open spec fn distinct_mount_points(s: Seq<DiskInfo>) -> bool {
    forall|i: int, j: int|
        0 <= i < s.len() && 0 <= j < s.len() && i != j ==> #[trigger] s[i].mount_point@
            != #[trigger] s[j].mount_point@
}

/// Two drives of `m` with the same mount point are the same drive.
pub open spec fn mount_points_identify(m: Multiset<DiskInfo>) -> bool {
    forall|x: DiskInfo, y: DiskInfo|
        m.count(x) > 0 && m.count(y) > 0 && x.mount_point@ == y.mount_point@ ==> x == y
}

/// Two lists in mount point order that hold the same drives, where a mount
/// point names one drive, are the same list.
proof fn lemma_sorted_unique(a: Seq<DiskInfo>, b: Seq<DiskInfo>)
    requires
        sorted_by_mount(a),
        sorted_by_mount(b),
        a.to_multiset() =~= b.to_multiset(),
        mount_points_identify(a.to_multiset()),
    ensures
        a == b,
    decreases a.len(),
{
    assert(a.len() == b.len()) by {
        assert(a.to_multiset().len() == a.len());
        assert(b.to_multiset().len() == b.len());
    }
    if a.len() == 0 {
        assert(a =~= b);
    } else {
        let n = a.len() - 1;
        let x = a.last();
        let y = b.last();
        assert(a.contains(x)) by {
            assert(a[n] == x);
        }
        assert(b.contains(y)) by {
            assert(b[n] == y);
        }
        assert(b.to_multiset().count(x) > 0);
        assert(a.to_multiset().count(y) > 0);
        assert(b.contains(x));
        assert(a.contains(y));
        let k = choose|k: int| 0 <= k < b.len() && b[k] == x;
        let m = choose|m: int| 0 <= m < a.len() && a[m] == y;
        if k < n {
            assert(mount_le(b[k], b[n]));
        } else {
            lemma_chars_le_reflexive(x.mount_point@);
        }
        if m < n {
            assert(mount_le(a[m], a[n]));
        } else {
            lemma_chars_le_reflexive(y.mount_point@);
        }
        lemma_chars_le_antisymmetric(x.mount_point@, y.mount_point@);
        assert(x == y);
        let da = a.drop_last();
        let db = b.drop_last();
        assert(a =~= da.push(x));
        assert(b =~= db.push(x));
        assert(da.to_multiset() =~= db.to_multiset()) by {
            assert(a.to_multiset() =~= da.to_multiset().insert(x));
            assert(b.to_multiset() =~= db.to_multiset().insert(x));
            assert forall|z: DiskInfo| da.to_multiset().count(z) == db.to_multiset().count(z) by {
                assert(a.to_multiset().count(z) == b.to_multiset().count(z));
            }
        }
        assert(sorted_by_mount(da)) by {
            assert forall|i: int, j: int| 0 <= i < j < da.len() implies #[trigger] mount_le(
                da[i],
                da[j],
            ) by {
                assert(mount_le(a[i], a[j]));
            }
        }
        assert(sorted_by_mount(db)) by {
            assert forall|i: int, j: int| 0 <= i < j < db.len() implies #[trigger] mount_le(
                db[i],
                db[j],
            ) by {
                assert(mount_le(b[i], b[j]));
            }
        }
        assert(mount_points_identify(da.to_multiset())) by {
            assert forall|p: DiskInfo, q: DiskInfo|
                da.to_multiset().count(p) > 0 && da.to_multiset().count(q) > 0
                    && p.mount_point@ == q.mount_point@ implies p == q by {
                assert(a.to_multiset().count(p) > 0);
                assert(a.to_multiset().count(q) > 0);
            }
        }
        lemma_sorted_unique(da, db);
    }
}

/// The sorted drive list does not depend on the order in which the drives
/// were reported: two reorderings of the same drives, no two of which share a
/// mount point, sort to the same list.
pub proof fn lemma_sort_ignores_report_order(d1: Seq<DiskInfo>, d2: Seq<DiskInfo>)
    requires
        d1.to_multiset() =~= d2.to_multiset(),
        distinct_mount_points(d1),
    ensures
        sort_by_mount(d1) == sort_by_mount(d2),
{
    lemma_sort_by_mount_sorted(d1);
    lemma_sort_by_mount_sorted(d2);
    lemma_sort_by_mount_permutes(d1);
    lemma_sort_by_mount_permutes(d2);
    assert(mount_points_identify(d1.to_multiset())) by {
        assert forall|x: DiskInfo, y: DiskInfo|
            d1.to_multiset().count(x) > 0 && d1.to_multiset().count(y) > 0 && x.mount_point@
                == y.mount_point@ implies x == y by {
            assert(d1.contains(x));
            assert(d1.contains(y));
            let i = choose|i: int| 0 <= i < d1.len() && d1[i] == x;
            let j = choose|j: int| 0 <= j < d1.len() && d1[j] == y;
            assert(d1[i].mount_point@ == d1[j].mount_point@);
        }
    }
    lemma_sorted_unique(sort_by_mount(d1), sort_by_mount(d2));
}

/// `a` and `b` agree on their first `k` characters and differ at position
/// `k`, where `a` has the smaller code point.
pub open spec fn first_difference_smaller(a: Seq<char>, b: Seq<char>, k: int) -> bool {
    &&& 0 <= k < a.len()
    &&& k < b.len()
    &&& a.take(k) == b.take(k)
    &&& (a[k] as int) < (b[k] as int)
}

/// Mount point order is the lexicographic order of code points, the order of
/// `str`: `a` comes no later than `b` exactly when `a` is a prefix of `b`, or
/// at the first position where they differ `a` has the smaller code point.
pub proof fn lemma_chars_le_lexicographic(a: Seq<char>, b: Seq<char>)
    ensures
        chars_le(a, b) <==> (a.is_prefix_of(b) || exists|k: int|
            #[trigger] first_difference_smaller(a, b, k)),
    decreases a.len(),
{
    if a.len() == 0 {
        assert(a =~= b.subrange(0, 0));
    } else if b.len() == 0 {
        assert(!a.is_prefix_of(b));
        assert forall|k: int| !#[trigger] first_difference_smaller(a, b, k) by {}
    } else if a[0] != b[0] {
        if a.is_prefix_of(b) {
            assert(a[0] == b.subrange(0, a.len() as int)[0]);
        }
        if (a[0] as int) < (b[0] as int) {
            assert(a.take(0) =~= b.take(0));
            assert(first_difference_smaller(a, b, 0));
        } else {
            assert forall|k: int| !#[trigger] first_difference_smaller(a, b, k) by {
                if 0 < k && k < a.len() && k < b.len() && a.take(k) == b.take(k) {
                    assert(a.take(k)[0] == b.take(k)[0]);
                }
            }
        }
    } else {
        let a2 = a.drop_first();
        let b2 = b.drop_first();
        lemma_chars_le_lexicographic(a2, b2);
        assert(a.is_prefix_of(b) <==> a2.is_prefix_of(b2)) by {
            if a2.is_prefix_of(b2) {
                assert forall|i: int| 0 <= i < a.len() implies a[i] == b.subrange(
                    0,
                    a.len() as int,
                )[i] by {
                    if i > 0 {
                        assert(a[i] == a2[i - 1]);
                        assert(a2[i - 1] == b2.subrange(0, a2.len() as int)[i - 1]);
                    }
                }
                assert(a =~= b.subrange(0, a.len() as int));
            }
            if a.is_prefix_of(b) {
                assert forall|i: int| 0 <= i < a2.len() implies a2[i] == b2.subrange(
                    0,
                    a2.len() as int,
                )[i] by {
                    assert(a[i + 1] == b.subrange(0, a.len() as int)[i + 1]);
                }
                assert(a2 =~= b2.subrange(0, a2.len() as int));
            }
        }
        if exists|k: int| #[trigger] first_difference_smaller(a, b, k) {
            let k = choose|k: int| #[trigger] first_difference_smaller(a, b, k);
            assert(k != 0);
            assert(a2.take(k - 1) =~= b2.take(k - 1)) by {
                assert forall|i: int| 0 <= i < k - 1 implies #[trigger] a2.take(k - 1)[i]
                    == b2.take(k - 1)[i] by {
                    assert(a.take(k)[i + 1] == b.take(k)[i + 1]);
                }
            }
            assert(first_difference_smaller(a2, b2, k - 1));
        }
        if exists|k: int| #[trigger] first_difference_smaller(a2, b2, k) {
            let k = choose|k: int| #[trigger] first_difference_smaller(a2, b2, k);
            assert(a.take(k + 1) =~= b.take(k + 1)) by {
                assert forall|i: int| 0 <= i < k + 1 implies #[trigger] a.take(k + 1)[i]
                    == b.take(k + 1)[i] by {
                    if i > 0 {
                        assert(a2.take(k)[i - 1] == b2.take(k)[i - 1]);
                    }
                }
            }
            assert(first_difference_smaller(a, b, k + 1));
        }
    }
}

/// On single characters mount point order is code point order.
pub proof fn lemma_chars_le_single(c: char, d: char)
    ensures
        chars_le(seq![c], seq![d]) <==> (c as int) <= (d as int),
{
    let a = seq![c];
    let b = seq![d];
    assert(a.drop_first() =~= Seq::<char>::empty());
    assert(b.drop_first() =~= Seq::<char>::empty());
    assert(chars_le(Seq::<char>::empty(), Seq::<char>::empty()));
}

} // verus!
