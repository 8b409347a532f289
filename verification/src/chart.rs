//! Turning benchmark results into chart bars: which result fills each bar,
//! the bars' colours, and the labels under them.

use vstd::prelude::*;
use crate::text::chars_of;
use crate::resp::decimal;
use crate::roundtrip::ascii_text;

verus! {

/// The engine names a chart knows.
#[derive(Clone, Copy, Debug, PartialEq, Eq, Structural)]
pub enum EngineNames {
    /// `Redis`, `KeyDB`, `OmegaDrive`.
    Plain,
    /// `Redis + AES`, `KeyDB + AES`, `OmegaDrive`.
    Encrypted,
}

/// The group (0, 1 or 2) of an engine name; `None` for a name the chart does not show.
pub open spec fn engine_group(names: EngineNames, name: Seq<char>) -> Option<usize> {
    match names {
        EngineNames::Plain => {
            if name == "Redis"@ {
                Some(0)
            } else if name == "KeyDB"@ {
                Some(1)
            } else if name == "OmegaDrive"@ {
                Some(2)
            } else {
                None
            }
        },
        EngineNames::Encrypted => {
            if name == "Redis + AES"@ {
                Some(0)
            } else if name == "KeyDB + AES"@ {
                Some(1)
            } else if name == "OmegaDrive"@ {
                Some(2)
            } else {
                None
            }
        },
    }
}

/// Law: each list of engine names gives its three names the groups 0, 1 and 2
/// in order, and a name with a group is the name of that group in the list.
pub proof fn law_engine_groups(name: Seq<char>)
    ensures
        ({
            let plain = seq!["Redis"@, "KeyDB"@, "OmegaDrive"@];
            let encrypted = seq!["Redis + AES"@, "KeyDB + AES"@, "OmegaDrive"@];
            &&& forall|g: int| 0 <= g < 3 ==> engine_group(EngineNames::Plain, #[trigger] plain[g]) == Some(g as usize)
            &&& forall|g: int| 0 <= g < 3 ==> engine_group(EngineNames::Encrypted, #[trigger] encrypted[g]) == Some(
                g as usize,
            )
            &&& engine_group(EngineNames::Plain, name) matches Some(g) ==> g < 3 && name == plain[g as int]
            &&& engine_group(EngineNames::Encrypted, name) matches Some(g) ==> g < 3 && name == encrypted[g as int]
        }),
{
    reveal_strlit("Redis");
    reveal_strlit("KeyDB");
    reveal_strlit("OmegaDrive");
    reveal_strlit("Redis + AES");
    reveal_strlit("KeyDB + AES");
    assert("KeyDB"@[0] != "Redis"@[0]);
    assert("OmegaDrive"@[0] != "Redis"@[0]);
    assert("OmegaDrive"@[0] != "KeyDB"@[0]);
    assert("KeyDB + AES"@[0] != "Redis + AES"@[0]);
    assert("OmegaDrive"@[0] != "Redis + AES"@[0]);
    assert("OmegaDrive"@[0] != "KeyDB + AES"@[0]);
}

/// Whether two strings hold the same characters.
pub fn same_text(a: &str, b: &str) -> (same: bool)
    ensures
        same == (a@ == b@),
{
    let x = chars_of(a);
    let y = chars_of(b);
    if x.len() != y.len() {
        return false;
    }
    let mut i: usize = 0;
    while i < x.len()
        invariant
            x@ == a@,
            y@ == b@,
            x.len() == y.len(),
            i <= x.len(),
            forall|k: int| 0 <= k < i ==> x@[k] == y@[k],
        decreases x.len() - i,
    {
        if x[i] != y[i] {
            return false;
        }
        i = i + 1;
    }
    assert(x@ =~= y@);
    true
}

/// The group of an engine name.
pub fn group_of(names: EngineNames, name: &str) -> (group: Option<usize>)
    ensures
        group == engine_group(names, name@),
{
    match names {
        EngineNames::Plain => {
            if same_text(name, "Redis") {
                Some(0)
            } else if same_text(name, "KeyDB") {
                Some(1)
            } else if same_text(name, "OmegaDrive") {
                Some(2)
            } else {
                None
            }
        },
        EngineNames::Encrypted => {
            if same_text(name, "Redis + AES") {
                Some(0)
            } else if same_text(name, "KeyDB + AES") {
                Some(1)
            } else if same_text(name, "OmegaDrive") {
                Some(2)
            } else {
                None
            }
        },
    }
}

/// The texts of a list of names.
pub open spec fn texts(names: Seq<&str>) -> Seq<Seq<char>> {
    names.map_values(|s: &str| s@)
}

/// The position of the last result whose engine is in group `g`.
pub open spec fn latest_in_group(names: EngineNames, engines: Seq<Seq<char>>, g: usize) -> Option<usize>
    decreases engines.len(),
{
    if engines.len() == 0 {
        None
    } else if engine_group(names, engines.last()) == Some(g) {
        Some((engines.len() - 1) as usize)
    } else {
        latest_in_group(names, engines.drop_last(), g)
    }
}

/// Law: the result chosen for an engine group is the last result of that
/// group; when none is chosen, no result belongs to the group.
pub proof fn law_latest_in_group(names: EngineNames, engines: Seq<Seq<char>>, g: usize)
    requires
        engines.len() <= usize::MAX,
    ensures
        latest_in_group(names, engines, g) matches Some(k) ==> {
            &&& k < engines.len()
            &&& engine_group(names, engines[k as int]) == Some(g)
            &&& forall|j: int| k < j < engines.len() ==> engine_group(names, #[trigger] engines[j]) != Some(g)
        },
        latest_in_group(names, engines, g) is None ==> forall|j: int|
            0 <= j < engines.len() ==> engine_group(names, #[trigger] engines[j]) != Some(g),
    decreases engines.len(),
{
    if engines.len() > 0 {
        let init = engines.drop_last();
        law_latest_in_group(names, init, g);
        let last = (engines.len() - 1) as int;
        if engine_group(names, engines.last()) != Some(g) {
            match latest_in_group(names, init, g) {
                Some(k) => {
                    assert(init[k as int] == engines[k as int]);
                    assert forall|j: int| k < j < engines.len() implies engine_group(
                        names,
                        #[trigger] engines[j],
                    ) != Some(g) by {
                        if j < last {
                            assert(init[j] == engines[j]);
                        }
                    }
                },
                None => {
                    assert forall|j: int| 0 <= j < engines.len() implies engine_group(
                        names,
                        #[trigger] engines[j],
                    ) != Some(g) by {
                        if j < last {
                            assert(init[j] == engines[j]);
                        }
                    }
                },
            }
        }
    }
}

/// `b` holds the entries of `a` in another order: `b[i]` is `a[perm[i]]`, and
/// every position of `a` appears in `perm`.
pub open spec fn is_reordering<T>(a: Seq<T>, b: Seq<T>, perm: Seq<int>) -> bool {
    &&& a.len() == b.len()
    &&& perm.len() == b.len()
    &&& forall|i: int| 0 <= i < b.len() ==> 0 <= #[trigger] perm[i] < a.len() && b[i] == a[perm[i]]
    &&& forall|j: int| #![trigger a[j]] 0 <= j < a.len() ==> exists|i: int| 0 <= i < b.len() && #[trigger] perm[i] == j
}

/// No two results belong to the same engine group.
pub open spec fn groups_distinct(names: EngineNames, engines: Seq<Seq<char>>) -> bool {
    forall|i: int, j: int|
        0 <= i < engines.len() && 0 <= j < engines.len() && i != j && engine_group(names, #[trigger] engines[i])
            is Some ==> engine_group(names, engines[i]) != engine_group(names, #[trigger] engines[j])
}

/// Law: when no two results share an engine, their order does not matter: in
/// any reordering, each engine's bars are filled by the same result.
pub proof fn law_pair_sources_ignore_order(
    names: EngineNames,
    a: Seq<Seq<char>>,
    b: Seq<Seq<char>>,
    perm: Seq<int>,
    g: usize,
)
    requires
        a.len() <= usize::MAX,
        is_reordering(a, b, perm),
        groups_distinct(names, a),
    ensures
        latest_in_group(names, b, g) is Some <==> latest_in_group(names, a, g) is Some,
        latest_in_group(names, b, g) matches Some(k) ==> perm[k as int] == latest_in_group(names, a, g).unwrap() as int,
{
    law_latest_in_group(names, a, g);
    law_latest_in_group(names, b, g);
    match latest_in_group(names, b, g) {
        Some(k) => {
            let pk = perm[k as int];
            assert(b[k as int] == a[pk]);
            assert(engine_group(names, a[pk]) == Some(g));
            let j = latest_in_group(names, a, g).unwrap() as int;
            if pk != j {
                assert(engine_group(names, a[pk]) != engine_group(names, a[j]));
            }
        },
        None => {
            if let Some(j) = latest_in_group(names, a, g) {
                let i = choose|i: int| 0 <= i < b.len() && #[trigger] perm[i] == j as int;
                assert(b[i] == a[j as int]);
            }
        },
    }
}

/// Law: a result of an engine the chart does not show changes no bar.
pub proof fn law_pair_sources_ignore_unknown(names: EngineNames, a: Seq<Seq<char>>, x: Seq<char>, g: usize)
    requires
        engine_group(names, x) is None,
    ensures
        latest_in_group(names, a.push(x), g) == latest_in_group(names, a, g),
{
    assert(a.push(x).drop_last() =~= a);
}

/// For each engine group (0, 1, 2), the position of the result that fills its
/// two bars (write and read): the last result of that engine, if any.
pub fn pair_chart_sources(names: EngineNames, engines: &[&str]) -> (sources: Vec<Option<usize>>)
    ensures
        sources@.len() == 3,
        forall|g: int| 0 <= g < 3 ==> #[trigger] sources@[g] == latest_in_group(names, texts(engines@), g as usize),
{
    let mut sources: Vec<Option<usize>> = vec![None, None, None];
    let mut i: usize = 0;
    while i < engines.len()
        invariant
            i <= engines@.len(),
            sources@.len() == 3,
            forall|g: int| 0 <= g < 3 ==> #[trigger] sources@[g] == latest_in_group(
                names,
                texts(engines@).take(i as int),
                g as usize,
            ),
        decreases engines.len() - i,
    {
        let group = group_of(names, engines[i]);
        proof {
            let t = texts(engines@);
            assert(t.take(i + 1).drop_last() =~= t.take(i as int));
            assert(t.take(i + 1).last() == engines@[i as int]@);
        }
        match group {
            Some(g) => {
                sources.set(g, Some(i));
            },
            None => {},
        }
        i = i + 1;
    }
    assert(texts(engines@).take(engines@.len() as int) =~= texts(engines@));
    sources
}

/// The sizes a sized chart shows.
#[derive(Clone, Copy, Debug, PartialEq, Eq, Structural)]
pub enum SizeAxis {
    /// JSON documents of 1, 10, 50 and 100 KB.
    JsonKb,
    /// File chunks of 1, 5 and 10 MB.
    FileMb,
}

/// The number of size groups on the axis.
pub open spec fn slot_count(axis: SizeAxis) -> nat {
    match axis {
        SizeAxis::JsonKb => 4,
        SizeAxis::FileMb => 3,
    }
}

/// The size group of a payload size; `None` for a size the chart does not show.
pub open spec fn size_slot(axis: SizeAxis, size: usize) -> Option<usize> {
    match axis {
        SizeAxis::JsonKb => {
            if size == 1 {
                Some(0)
            } else if size == 10 {
                Some(1)
            } else if size == 50 {
                Some(2)
            } else if size == 100 {
                Some(3)
            } else {
                None
            }
        },
        SizeAxis::FileMb => {
            if size == 1 {
                Some(0)
            } else if size == 5 {
                Some(1)
            } else if size == 10 {
                Some(2)
            } else {
                None
            }
        },
    }
}

/// Law: the size groups are fixed. In KB, sizes 1, 10, 50 and 100 are groups
/// 0 to 3; in MB, sizes 1, 5 and 10 are groups 0 to 2; no other size has a group.
pub proof fn law_size_groups(size: usize)
    ensures
        size_slot(SizeAxis::JsonKb, size) == Some(0usize) <==> size == 1,
        size_slot(SizeAxis::JsonKb, size) == Some(1usize) <==> size == 10,
        size_slot(SizeAxis::JsonKb, size) == Some(2usize) <==> size == 50,
        size_slot(SizeAxis::JsonKb, size) == Some(3usize) <==> size == 100,
        size_slot(SizeAxis::JsonKb, size) is None <==> size != 1 && size != 10 && size != 50 && size != 100,
        size_slot(SizeAxis::FileMb, size) == Some(0usize) <==> size == 1,
        size_slot(SizeAxis::FileMb, size) == Some(1usize) <==> size == 5,
        size_slot(SizeAxis::FileMb, size) == Some(2usize) <==> size == 10,
        size_slot(SizeAxis::FileMb, size) is None <==> size != 1 && size != 5 && size != 10,
{
}

/// Law: the bar that a sized result fills is labelled with that result's size:
/// its digits, then `KB JSON` or `MB Chunk`.
pub proof fn law_sized_bar_labels(size: usize)
    ensures
        size_slot(SizeAxis::JsonKb, size) matches Some(slot) ==> label_text(ChartKind::Json, slot as int)
            == ascii_text(decimal(size as nat)) + "KB JSON"@,
        size_slot(SizeAxis::FileMb, size) matches Some(slot) ==> label_text(ChartKind::File, slot as int)
            == ascii_text(decimal(size as nat)) + "MB Chunk"@,
{
    reveal_strlit("KB JSON");
    reveal_strlit("MB Chunk");
    reveal_strlit("1KB JSON");
    reveal_strlit("10KB JSON");
    reveal_strlit("50KB JSON");
    reveal_strlit("100KB JSON");
    reveal_strlit("1MB Chunk");
    reveal_strlit("5MB Chunk");
    reveal_strlit("10MB Chunk");
    let n = size as nat;
    if size == 1 {
        assert(decimal(1) =~= seq![49u8]);
        assert(ascii_text(decimal(n)) + "KB JSON"@ =~= "1KB JSON"@);
        assert(ascii_text(decimal(n)) + "MB Chunk"@ =~= "1MB Chunk"@);
    } else if size == 5 {
        assert(decimal(5) =~= seq![53u8]);
        assert(ascii_text(decimal(n)) + "MB Chunk"@ =~= "5MB Chunk"@);
    } else if size == 10 {
        assert(decimal(1) =~= seq![49u8]);
        assert(decimal(10) =~= seq![49u8, 48u8]);
        assert(ascii_text(decimal(n)) + "KB JSON"@ =~= "10KB JSON"@);
        assert(ascii_text(decimal(n)) + "MB Chunk"@ =~= "10MB Chunk"@);
    } else if size == 50 {
        assert(decimal(5) =~= seq![53u8]);
        assert(decimal(50) =~= seq![53u8, 48u8]);
        assert(ascii_text(decimal(n)) + "KB JSON"@ =~= "50KB JSON"@);
    } else if size == 100 {
        assert(decimal(1) =~= seq![49u8]);
        assert(decimal(10) =~= seq![49u8, 48u8]);
        assert(decimal(100) =~= seq![49u8, 48u8, 48u8]);
        assert(ascii_text(decimal(n)) + "KB JSON"@ =~= "100KB JSON"@);
    }
}

/// The size group of a payload size.
pub fn slot_of(axis: SizeAxis, size: usize) -> (slot: Option<usize>)
    ensures
        slot == size_slot(axis, size),
{
    match axis {
        SizeAxis::JsonKb => {
            if size == 1 {
                Some(0)
            } else if size == 10 {
                Some(1)
            } else if size == 50 {
                Some(2)
            } else if size == 100 {
                Some(3)
            } else {
                None
            }
        },
        SizeAxis::FileMb => {
            if size == 1 {
                Some(0)
            } else if size == 5 {
                Some(1)
            } else if size == 10 {
                Some(2)
            } else {
                None
            }
        },
    }
}

/// The position of the last result of the engine group `g` with a size of group `slot`.
pub open spec fn latest_in_cell(
    axis: SizeAxis,
    engines: Seq<Seq<char>>,
    sizes: Seq<usize>,
    g: usize,
    slot: usize,
) -> Option<usize>
    decreases engines.len(),
{
    if engines.len() == 0 || sizes.len() == 0 {
        None
    } else if size_slot(axis, sizes.last()) == Some(slot) && engine_group(EngineNames::Plain, engines.last())
        == Some(g) {
        Some((engines.len() - 1) as usize)
    } else {
        latest_in_cell(axis, engines.drop_last(), sizes.drop_last(), g, slot)
    }
}

/// Whether a result of engine `name` and size `size` fills the bar of engine
/// group `g` at size group `slot`.
pub open spec fn in_cell(axis: SizeAxis, name: Seq<char>, size: usize, g: usize, slot: usize) -> bool {
    size_slot(axis, size) == Some(slot) && engine_group(EngineNames::Plain, name) == Some(g)
}

/// Law: the result chosen for a bar is the last result of its engine and size;
/// when none is chosen, no result belongs to the bar.
pub proof fn law_latest_in_cell(axis: SizeAxis, engines: Seq<Seq<char>>, sizes: Seq<usize>, g: usize, slot: usize)
    requires
        engines.len() <= usize::MAX,
        engines.len() == sizes.len(),
    ensures
        latest_in_cell(axis, engines, sizes, g, slot) matches Some(k) ==> {
            &&& k < engines.len()
            &&& in_cell(axis, engines[k as int], sizes[k as int], g, slot)
            &&& forall|j: int| k < j < engines.len() ==> !in_cell(axis, #[trigger] engines[j], sizes[j], g, slot)
        },
        latest_in_cell(axis, engines, sizes, g, slot) is None ==> forall|j: int|
            0 <= j < engines.len() ==> !in_cell(axis, #[trigger] engines[j], sizes[j], g, slot),
    decreases engines.len(),
{
    if engines.len() > 0 {
        let ie = engines.drop_last();
        let is = sizes.drop_last();
        law_latest_in_cell(axis, ie, is, g, slot);
        let last = (engines.len() - 1) as int;
        if !in_cell(axis, engines.last(), sizes.last(), g, slot) {
            assert forall|j: int| 0 <= j < last implies ie[j] == engines[j] && is[j] == sizes[j] by {}
            match latest_in_cell(axis, ie, is, g, slot) {
                Some(k) => {
                    assert(ie[k as int] == engines[k as int] && is[k as int] == sizes[k as int]);
                    assert forall|j: int| k < j < engines.len() implies !in_cell(
                        axis,
                        #[trigger] engines[j],
                        sizes[j],
                        g,
                        slot,
                    ) by {
                        if j < last {
                            assert(ie[j] == engines[j] && is[j] == sizes[j]);
                        }
                    }
                },
                None => {
                    assert forall|j: int| 0 <= j < engines.len() implies !in_cell(
                        axis,
                        #[trigger] engines[j],
                        sizes[j],
                        g,
                        slot,
                    ) by {
                        if j < last {
                            assert(ie[j] == engines[j] && is[j] == sizes[j]);
                        }
                    }
                },
            }
        }
    }
}

/// No two results share both an engine group and a size group.
pub open spec fn cells_distinct(axis: SizeAxis, engines: Seq<Seq<char>>, sizes: Seq<usize>) -> bool {
    forall|i: int, j: int, g: usize, slot: usize|
        0 <= i < engines.len() && 0 <= j < engines.len() && i != j && #[trigger] in_cell(
            axis,
            engines[i],
            sizes[i],
            g,
            slot,
        ) ==> !#[trigger] in_cell(axis, engines[j], sizes[j], g, slot)
}

/// Law: when no two results share an engine and a size, their order does not
/// matter: in any reordering, each bar is filled by the same result.
pub proof fn law_sized_sources_ignore_order(
    axis: SizeAxis,
    a: Seq<Seq<char>>,
    sa: Seq<usize>,
    b: Seq<Seq<char>>,
    sb: Seq<usize>,
    perm: Seq<int>,
    g: usize,
    slot: usize,
)
    requires
        a.len() <= usize::MAX,
        a.len() == sa.len(),
        is_reordering(a, b, perm),
        is_reordering(sa, sb, perm),
        cells_distinct(axis, a, sa),
    ensures
        latest_in_cell(axis, b, sb, g, slot) is Some <==> latest_in_cell(axis, a, sa, g, slot) is Some,
        latest_in_cell(axis, b, sb, g, slot) matches Some(k) ==> perm[k as int] == latest_in_cell(
            axis,
            a,
            sa,
            g,
            slot,
        ).unwrap() as int,
{
    law_latest_in_cell(axis, a, sa, g, slot);
    law_latest_in_cell(axis, b, sb, g, slot);
    match latest_in_cell(axis, b, sb, g, slot) {
        Some(k) => {
            let pk = perm[k as int];
            assert(b[k as int] == a[pk] && sb[k as int] == sa[pk]);
            assert(in_cell(axis, a[pk], sa[pk], g, slot));
            let j = latest_in_cell(axis, a, sa, g, slot).unwrap() as int;
            if pk != j {
                assert(in_cell(axis, a[j], sa[j], g, slot));
            }
        },
        None => {
            if let Some(j) = latest_in_cell(axis, a, sa, g, slot) {
                let i = choose|i: int| 0 <= i < b.len() && #[trigger] perm[i] == j as int;
                assert(b[i] == a[j as int] && sb[i] == sa[j as int]);
            }
        },
    }
}

/// Law: a result of an engine or a size the chart does not show changes no bar.
pub proof fn law_sized_sources_ignore_unknown(
    axis: SizeAxis,
    a: Seq<Seq<char>>,
    sa: Seq<usize>,
    x: Seq<char>,
    size: usize,
    g: usize,
    slot: usize,
)
    requires
        a.len() == sa.len(),
        engine_group(EngineNames::Plain, x) is None || size_slot(axis, size) is None,
    ensures
        latest_in_cell(axis, a.push(x), sa.push(size), g, slot) == latest_in_cell(axis, a, sa, g, slot),
{
    assert(a.push(x).drop_last() =~= a);
    assert(sa.push(size).drop_last() =~= sa);
}

/// For each engine group (0, 1, 2) and each size group of the axis, the
/// position of the result that fills that bar: the last result of that engine
/// and size, if any.
pub fn sized_chart_sources(axis: SizeAxis, engines: &[&str], sizes: &[usize]) -> (sources: Vec<Vec<Option<usize>>>)
    requires
        engines@.len() == sizes@.len(),
    ensures
        sources@.len() == 3,
        forall|g: int| 0 <= g < 3 ==> (#[trigger] sources@[g])@.len() == slot_count(axis),
        forall|g: int, s: int|
            0 <= g < 3 && 0 <= s < slot_count(axis) ==> #[trigger] sources@[g]@[s] == latest_in_cell(
                axis,
                texts(engines@),
                sizes@,
                g as usize,
                s as usize,
            ),
{
    let slots: usize = match axis {
        SizeAxis::JsonKb => 4,
        SizeAxis::FileMb => 3,
    };
    let mut sources: Vec<Vec<Option<usize>>> = Vec::new();
    let mut g: usize = 0;
    while g < 3
        invariant
            g <= 3,
            slots == slot_count(axis),
            sources@.len() == g,
            forall|h: int| 0 <= h < g ==> (#[trigger] sources@[h])@.len() == slots,
            forall|h: int, s: int|
                0 <= h < g && 0 <= s < slots ==> #[trigger] sources@[h]@[s] == latest_in_cell(
                    axis,
                    texts(engines@).take(0),
                    sizes@.take(0),
                    h as usize,
                    s as usize,
                ),
        decreases 3 - g,
    {
        let row: Vec<Option<usize>> = vec![None; slots];
        sources.push(row);
        g = g + 1;
    }
    let mut i: usize = 0;
    while i < engines.len()
        invariant
            i <= engines@.len(),
            engines@.len() == sizes@.len(),
            slots == slot_count(axis),
            sources@.len() == 3,
            forall|h: int| 0 <= h < 3 ==> (#[trigger] sources@[h])@.len() == slots,
            forall|h: int, s: int|
                0 <= h < 3 && 0 <= s < slots ==> #[trigger] sources@[h]@[s] == latest_in_cell(
                    axis,
                    texts(engines@).take(i as int),
                    sizes@.take(i as int),
                    h as usize,
                    s as usize,
                ),
        decreases engines.len() - i,
    {
        let slot = slot_of(axis, sizes[i]);
        let group = group_of(EngineNames::Plain, engines[i]);
        let ghost t = texts(engines@);
        proof {
            assert(t.take(i + 1).drop_last() =~= t.take(i as int));
            assert(sizes@.take(i + 1).drop_last() =~= sizes@.take(i as int));
            assert(t.take(i + 1).last() == engines@[i as int]@);
        }
        match (group, slot) {
            (Some(gr), Some(sl)) => {
                let mut row = sources[gr].clone();
                row.set(sl, Some(i));
                sources.set(gr, row);
            },
            _ => {},
        }
        i = i + 1;
    }
    assert(texts(engines@).take(engines@.len() as int) =~= texts(engines@));
    assert(sizes@.take(sizes@.len() as int) =~= sizes@);
    sources
}

/// A colour as its red, green and blue components.
pub type Rgb = (u8, u8, u8);

/// The colour of the first engine group: neon crimson.
pub open spec fn crimson() -> Rgb {
    (255, 51, 102)
}

/// The colour of the second engine group: muted purple.
pub open spec fn purple() -> Rgb {
    (161, 85, 232)
}

/// The colour of the third engine group: neon cyan.
pub open spec fn cyan() -> Rgb {
    (0, 243, 255)
}

/// The colour of an engine group.
pub open spec fn group_color(g: nat) -> Rgb {
    if g == 0 {
        crimson()
    } else if g == 1 {
        purple()
    } else {
        cyan()
    }
}

/// Law: the three engine groups are drawn in neon crimson (255, 51, 102),
/// muted purple (161, 85, 232) and neon cyan (0, 243, 255), in that order.
pub proof fn law_group_colors()
    ensures
        group_color(0) == (255u8, 51u8, 102u8),
        group_color(1) == (161u8, 85u8, 232u8),
        group_color(2) == (0u8, 243u8, 255u8),
{
}

/// The colour of bar `idx` of a write/read chart, where bars `2g` and `2g + 1`
/// belong to engine group `g`.
pub fn pair_bar_color(idx: usize) -> (color: Rgb)
    ensures
        color == group_color((idx / 2) as nat),
{
    if idx == 0 || idx == 1 {
        (255, 51, 102)
    } else if idx == 2 || idx == 3 {
        (161, 85, 232)
    } else {
        (0, 243, 255)
    }
}

/// The colour of the bars of engine group `g` in a sized chart.
pub fn series_color(g: usize) -> (color: Rgb)
    ensures
        color == group_color(g as nat),
{
    if g == 0 {
        (255, 51, 102)
    } else if g == 1 {
        (161, 85, 232)
    } else {
        (0, 243, 255)
    }
}

/// The charts the suite draws.
#[derive(Clone, Copy, Debug, PartialEq, Eq, Structural)]
pub enum ChartKind {
    /// The UDS write/read throughput chart.
    Uds,
    /// The TCP write/read throughput chart.
    Tcp,
    /// The batched MSET/MGET throughput chart.
    UdsBatched,
    /// The JSON caching chart, by payload size.
    Json,
    /// The file caching bandwidth chart, by chunk size.
    File,
    /// The encrypted-payload throughput chart.
    Crypto,
    /// The WebSocket connection and broadcast charts.
    Websocket,
}

/// The label under bar `idx` of a chart; empty where there is no bar.
pub open spec fn label_text(kind: ChartKind, idx: int) -> Seq<char> {
    match kind {
        ChartKind::Uds => {
            if idx == 0 {
                "Redis-W"@
            } else if idx == 1 {
                "Redis-R"@
            } else if idx == 2 {
                "KeyDB-W"@
            } else if idx == 3 {
                "KeyDB-R"@
            } else if idx == 4 {
                "OmegaDrive-W"@
            } else if idx == 5 {
                "OmegaDrive-R"@
            } else {
                ""@
            }
        },
        ChartKind::Tcp => {
            if idx == 0 {
                "Redis-W"@
            } else if idx == 1 {
                "Redis-R"@
            } else if idx == 2 {
                "KeyDB-W"@
            } else if idx == 3 {
                "KeyDB-R"@
            } else if idx == 4 {
                "OmegaDrive-W"@
            } else if idx == 5 {
                "OmegaDrive-R"@
            } else {
                ""@
            }
        },
        ChartKind::UdsBatched => {
            if idx == 0 {
                "Redis-MSET"@
            } else if idx == 1 {
                "Redis-MGET"@
            } else if idx == 2 {
                "KeyDB-MSET"@
            } else if idx == 3 {
                "KeyDB-MGET"@
            } else if idx == 4 {
                "Omega-MSET"@
            } else if idx == 5 {
                "Omega-MGET"@
            } else {
                ""@
            }
        },
        ChartKind::Json => {
            if idx == 0 {
                "1KB JSON"@
            } else if idx == 1 {
                "10KB JSON"@
            } else if idx == 2 {
                "50KB JSON"@
            } else if idx == 3 {
                "100KB JSON"@
            } else {
                ""@
            }
        },
        ChartKind::File => {
            if idx == 0 {
                "1MB Chunk"@
            } else if idx == 1 {
                "5MB Chunk"@
            } else if idx == 2 {
                "10MB Chunk"@
            } else {
                ""@
            }
        },
        ChartKind::Crypto => {
            if idx == 0 {
                "Redis + AES (W)"@
            } else if idx == 1 {
                "Redis + AES (R)"@
            } else if idx == 2 {
                "KeyDB + AES (W)"@
            } else if idx == 3 {
                "KeyDB + AES (R)"@
            } else if idx == 4 {
                "Omega Neural (W)"@
            } else if idx == 5 {
                "Omega Neural (R)"@
            } else {
                ""@
            }
        },
        ChartKind::Websocket => {
            if idx == 0 {
                "Omega (CPU)"@
            } else if idx == 1 {
                "Omega (GPU)"@
            } else {
                ""@
            }
        },
    }
}

/// The label under bar `idx` of a chart.
pub fn bar_label(kind: ChartKind, idx: i32) -> (label: &'static str)
    ensures
        label@ == label_text(kind, idx as int),
{
    match kind {
        ChartKind::Uds => {
            if idx == 0 {
                "Redis-W"
            } else if idx == 1 {
                "Redis-R"
            } else if idx == 2 {
                "KeyDB-W"
            } else if idx == 3 {
                "KeyDB-R"
            } else if idx == 4 {
                "OmegaDrive-W"
            } else if idx == 5 {
                "OmegaDrive-R"
            } else {
                ""
            }
        },
        ChartKind::Tcp => {
            if idx == 0 {
                "Redis-W"
            } else if idx == 1 {
                "Redis-R"
            } else if idx == 2 {
                "KeyDB-W"
            } else if idx == 3 {
                "KeyDB-R"
            } else if idx == 4 {
                "OmegaDrive-W"
            } else if idx == 5 {
                "OmegaDrive-R"
            } else {
                ""
            }
        },
        ChartKind::UdsBatched => {
            if idx == 0 {
                "Redis-MSET"
            } else if idx == 1 {
                "Redis-MGET"
            } else if idx == 2 {
                "KeyDB-MSET"
            } else if idx == 3 {
                "KeyDB-MGET"
            } else if idx == 4 {
                "Omega-MSET"
            } else if idx == 5 {
                "Omega-MGET"
            } else {
                ""
            }
        },
        ChartKind::Json => {
            if idx == 0 {
                "1KB JSON"
            } else if idx == 1 {
                "10KB JSON"
            } else if idx == 2 {
                "50KB JSON"
            } else if idx == 3 {
                "100KB JSON"
            } else {
                ""
            }
        },
        ChartKind::File => {
            if idx == 0 {
                "1MB Chunk"
            } else if idx == 1 {
                "5MB Chunk"
            } else if idx == 2 {
                "10MB Chunk"
            } else {
                ""
            }
        },
        ChartKind::Crypto => {
            if idx == 0 {
                "Redis + AES (W)"
            } else if idx == 1 {
                "Redis + AES (R)"
            } else if idx == 2 {
                "KeyDB + AES (W)"
            } else if idx == 3 {
                "KeyDB + AES (R)"
            } else if idx == 4 {
                "Omega Neural (W)"
            } else if idx == 5 {
                "Omega Neural (R)"
            } else {
                ""
            }
        },
        ChartKind::Websocket => {
            if idx == 0 {
                "Omega (CPU)"
            } else if idx == 1 {
                "Omega (GPU)"
            } else {
                ""
            }
        },
    }
}

/// Law: in the write/read charts, the two bars of engine group `g` are labelled
/// with the engine's own name: bar `2g` with `-W` (the write result fills it)
/// and bar `2g + 1` with `-R` (the read result); both get the group's colour.
pub proof fn law_pair_bar_labels(name: Seq<char>, g: usize)
    requires
        engine_group(EngineNames::Plain, name) == Some(g),
    ensures
        label_text(ChartKind::Uds, 2 * g) == name + "-W"@,
        label_text(ChartKind::Uds, 2 * g + 1) == name + "-R"@,
        label_text(ChartKind::Tcp, 2 * g) == name + "-W"@,
        label_text(ChartKind::Tcp, 2 * g + 1) == name + "-R"@,
        group_color(((2 * g) / 2) as nat) == group_color(g as nat),
        group_color(((2 * g + 1) / 2) as nat) == group_color(g as nat),
{
    reveal_strlit("-W");
    reveal_strlit("-R");
    reveal_strlit("Redis");
    reveal_strlit("KeyDB");
    reveal_strlit("OmegaDrive");
    reveal_strlit("Redis-W");
    reveal_strlit("Redis-R");
    reveal_strlit("KeyDB-W");
    reveal_strlit("KeyDB-R");
    reveal_strlit("OmegaDrive-W");
    reveal_strlit("OmegaDrive-R");
    if name == "Redis"@ {
        assert(name + "-W"@ =~= "Redis-W"@);
        assert(name + "-R"@ =~= "Redis-R"@);
    } else if name == "KeyDB"@ {
        assert(name + "-W"@ =~= "KeyDB-W"@);
        assert(name + "-R"@ =~= "KeyDB-R"@);
    } else {
        assert(name == "OmegaDrive"@);
        assert(name + "-W"@ =~= "OmegaDrive-W"@);
        assert(name + "-R"@ =~= "OmegaDrive-R"@);
    }
}

/// Law: the engines behind the bars of each chart, in group order: `Redis`,
/// `KeyDB`, `OmegaDrive` in the write/read charts (the names of the three
/// engine groups), `Redis`, `KeyDB`, `Omega` with `-MSET`/`-MGET` in the batched
/// chart, and `Redis + AES`, `KeyDB + AES`, `Omega Neural` with ` (W)`/` (R)` in
/// the encrypted-payload chart; the three groups have three different colours.
pub proof fn law_engine_bar_labels(g: int)
    requires
        0 <= g < 3,
    ensures
        ({
            let plain = seq!["Redis"@, "KeyDB"@, "OmegaDrive"@];
            let batched = seq!["Redis"@, "KeyDB"@, "Omega"@];
            let crypto = seq!["Redis + AES"@, "KeyDB + AES"@, "Omega Neural"@];
            &&& engine_group(EngineNames::Plain, plain[g]) == Some(g as usize)
            &&& label_text(ChartKind::Tcp, 2 * g) == plain[g] + "-W"@
            &&& label_text(ChartKind::Tcp, 2 * g + 1) == plain[g] + "-R"@
            &&& label_text(ChartKind::Uds, 2 * g) == plain[g] + "-W"@
            &&& label_text(ChartKind::Uds, 2 * g + 1) == plain[g] + "-R"@
            &&& label_text(ChartKind::UdsBatched, 2 * g) == batched[g] + "-MSET"@
            &&& label_text(ChartKind::UdsBatched, 2 * g + 1) == batched[g] + "-MGET"@
            &&& label_text(ChartKind::Crypto, 2 * g) == crypto[g] + " (W)"@
            &&& label_text(ChartKind::Crypto, 2 * g + 1) == crypto[g] + " (R)"@
        }),
        group_color(0) != group_color(1),
        group_color(1) != group_color(2),
        group_color(0) != group_color(2),
{
    reveal_strlit("Redis");
    reveal_strlit("KeyDB");
    reveal_strlit("OmegaDrive");
    reveal_strlit("Omega");
    reveal_strlit("Redis + AES");
    reveal_strlit("KeyDB + AES");
    reveal_strlit("Omega Neural");
    reveal_strlit("-MSET");
    reveal_strlit("-MGET");
    reveal_strlit(" (W)");
    reveal_strlit(" (R)");
    reveal_strlit("Redis-MSET");
    reveal_strlit("Redis-MGET");
    reveal_strlit("KeyDB-MSET");
    reveal_strlit("KeyDB-MGET");
    reveal_strlit("Omega-MSET");
    reveal_strlit("Omega-MGET");
    reveal_strlit("Redis + AES (W)");
    reveal_strlit("Redis + AES (R)");
    reveal_strlit("KeyDB + AES (W)");
    reveal_strlit("KeyDB + AES (R)");
    reveal_strlit("Omega Neural (W)");
    reveal_strlit("Omega Neural (R)");
    let plain = seq!["Redis"@, "KeyDB"@, "OmegaDrive"@];
    assert("KeyDB"@[0] != "Redis"@[0]);
    assert("OmegaDrive"@[0] != "Redis"@[0]);
    assert("OmegaDrive"@[0] != "KeyDB"@[0]);
    law_pair_bar_labels(plain[g], g as usize);
    if g == 0 {
        assert("Redis"@ + "-MSET"@ =~= "Redis-MSET"@);
        assert("Redis"@ + "-MGET"@ =~= "Redis-MGET"@);
        assert("Redis + AES"@ + " (W)"@ =~= "Redis + AES (W)"@);
        assert("Redis + AES"@ + " (R)"@ =~= "Redis + AES (R)"@);
    } else if g == 1 {
        assert("KeyDB"@ + "-MSET"@ =~= "KeyDB-MSET"@);
        assert("KeyDB"@ + "-MGET"@ =~= "KeyDB-MGET"@);
        assert("KeyDB + AES"@ + " (W)"@ =~= "KeyDB + AES (W)"@);
        assert("KeyDB + AES"@ + " (R)"@ =~= "KeyDB + AES (R)"@);
    } else {
        assert("Omega"@ + "-MSET"@ =~= "Omega-MSET"@);
        assert("Omega"@ + "-MGET"@ =~= "Omega-MGET"@);
        assert("Omega Neural"@ + " (W)"@ =~= "Omega Neural (W)"@);
        assert("Omega Neural"@ + " (R)"@ =~= "Omega Neural (R)"@);
    }
}

} // verus!
