use vstd::prelude::*;
use vstd::utf8::encode_utf8;

verus! {

/// One entry of a line item's tag map: a tag key and its values, in order.
pub struct TagEntry {
    pub key: String,
    pub values: Vec<String>,
}

/// The tag field of a line item: left out, present but null, or a map.
/// The entries of `Present` have distinct keys.
pub enum Tags {
    Absent,
    Null,
    Present(Vec<TagEntry>),
}

/// One charge row of an invoice. The amounts that the wire form carries as
/// floating-point numbers (quantity, unit price) are kept beside the
/// invoice by its caller, by the item's position.
pub struct LineItem {
    pub cluster_name: Option<String>,
    pub created: String,
    pub end_date: String,
    pub group_name: Option<String>,
    pub sku: String,
    pub start_date: String,
    pub tags: Tags,
    pub total_price_cents: u64,
    pub unit: String,
}

/// One billing period's summary.
pub struct Data {
    pub amount_billed_cents: u64,
    pub amount_paid_cents: u64,
    pub created: String,
    pub credits_cents: u64,
    pub end_date: String,
    pub id: String,
    pub line_items: Vec<LineItem>,
}

/// The grouping key of a line item: `{cluster_name}_{sku}`, or the sku alone.
pub open spec fn key_of(item: LineItem) -> Seq<char> {
    match item.cluster_name {
        Some(c) => c@ + seq!['_'] + item.sku@,
        None => item.sku@,
    }
}

/// Byte-wise lexicographic order, the order of `str`.
pub open spec fn lex_le(a: Seq<u8>, b: Seq<u8>) -> bool
    decreases a.len(),
{
    if a.len() == 0 {
        true
    } else if b.len() == 0 {
        false
    } else if a[0] != b[0] {
        a[0] < b[0]
    } else {
        lex_le(a.drop_first(), b.drop_first())
    }
}

/// A date string's place in the order: its UTF-8 bytes.
pub open spec fn date_bytes(s: Seq<char>) -> Seq<u8> {
    encode_utf8(s)
}

pub proof fn lemma_lex_total(a: Seq<u8>, b: Seq<u8>)
    ensures
        lex_le(a, b) || lex_le(b, a),
    decreases a.len(),
{
    if a.len() > 0 && b.len() > 0 && a[0] == b[0] {
        lemma_lex_total(a.drop_first(), b.drop_first());
    }
}

pub proof fn lemma_lex_refl(a: Seq<u8>)
    ensures
        lex_le(a, a),
    decreases a.len(),
{
    if a.len() > 0 {
        lemma_lex_refl(a.drop_first());
    }
}

pub proof fn lemma_lex_trans(a: Seq<u8>, b: Seq<u8>, c: Seq<u8>)
    requires
        lex_le(a, b),
        lex_le(b, c),
    ensures
        lex_le(a, c),
    decreases a.len(),
{
    if a.len() > 0 && b.len() > 0 && c.len() > 0 && a[0] == b[0] && b[0] == c[0] {
        lemma_lex_trans(a.drop_first(), b.drop_first(), c.drop_first());
    }
}

pub proof fn lemma_lex_antisym(a: Seq<u8>, b: Seq<u8>)
    requires
        lex_le(a, b),
        lex_le(b, a),
    ensures
        a == b,
    decreases a.len(),
{
    if a.len() > 0 {
        lemma_lex_antisym(a.drop_first(), b.drop_first());
        assert(a =~= seq![a[0]] + a.drop_first());
        assert(b =~= seq![b[0]] + b.drop_first());
    } else {
        assert(b =~= a);
    }
}

/// Compares two strings in the order of `str`.
fn str_le(a: &str, b: &str) -> (r: bool)
    ensures
        r == lex_le(date_bytes(a@), date_bytes(b@)),
{
    let x = a.as_bytes();
    let y = b.as_bytes();
    let mut i: usize = 0;
    assert(x@ =~= x@.subrange(0, x@.len() as int));
    assert(y@ =~= y@.subrange(0, y@.len() as int));
    while i < x.len() && i < y.len() && x[i] == y[i]
        invariant
            0 <= i <= x@.len(),
            i <= y@.len(),
            x@ == date_bytes(a@),
            y@ == date_bytes(b@),
            x@.subrange(0, i as int) == y@.subrange(0, i as int),
            lex_le(x@, y@) == lex_le(x@.subrange(i as int, x@.len() as int), y@.subrange(i as int, y@.len() as int)),
        decreases x@.len() - i,
    {
        assert(x@.subrange(i as int, x@.len() as int).drop_first() =~= x@.subrange(i + 1, x@.len() as int));
        assert(y@.subrange(i as int, y@.len() as int).drop_first() =~= y@.subrange(i + 1, y@.len() as int));
        assert(x@.subrange(0, i + 1) =~= x@.subrange(0, i as int).push(x@[i as int]));
        assert(y@.subrange(0, i + 1) =~= y@.subrange(0, i as int).push(y@[i as int]));
        i = i + 1;
    }
    if i == x.len() {
        true
    } else if i == y.len() {
        false
    } else {
        x[i] < y[i]
    }
}

/// Whether `d` is the greatest end date among `items`, in the order of `str`.
pub open spec fn is_latest(items: Seq<LineItem>, d: Seq<char>) -> bool {
    &&& exists|i: int| 0 <= i < items.len() && #[trigger] items[i].end_date@ == d
    &&& forall|i: int|
        0 <= i < items.len() ==> lex_le(date_bytes(#[trigger] items[i].end_date@), date_bytes(d))
}

/// An invoice has at most one latest end date.
pub proof fn lemma_latest_unique(items: Seq<LineItem>, d1: Seq<char>, d2: Seq<char>)
    requires
        is_latest(items, d1),
        is_latest(items, d2),
    ensures
        d1 == d2,
{
    let i = choose|i: int| 0 <= i < items.len() && #[trigger] items[i].end_date@ == d1;
    let j = choose|j: int| 0 <= j < items.len() && #[trigger] items[j].end_date@ == d2;
    assert(lex_le(date_bytes(items[j].end_date@), date_bytes(d1)));
    assert(lex_le(date_bytes(items[i].end_date@), date_bytes(d2)));
    lemma_lex_antisym(date_bytes(d1), date_bytes(d2));
    vstd::utf8::encode_utf8_decode_utf8(d1);
    vstd::utf8::encode_utf8_decode_utf8(d2);
}

/// The greatest end date of the line items; `None` when there are none.
pub fn latest_end_date(items: &Vec<LineItem>) -> (r: Option<String>)
    ensures
        r is None <==> items@.len() == 0,
        r matches Some(d) ==> is_latest(items@, d@),
{
    if items.len() == 0 {
        return None;
    }
    let mut best: usize = 0;
    let mut i: usize = 1;
    proof {
        lemma_lex_refl(date_bytes(items@[0].end_date@));
    }
    while i < items.len()
        invariant
            1 <= i <= items@.len(),
            best < i,
            forall|j: int|
                0 <= j < i ==> lex_le(
                    date_bytes(#[trigger] items@[j].end_date@),
                    date_bytes(items@[best as int].end_date@),
                ),
        decreases items@.len() - i,
    {
        if !str_le(items[i].end_date.as_str(), items[best].end_date.as_str()) {
            proof {
                let ghost old_best = date_bytes(items@[best as int].end_date@);
                let ghost new_best = date_bytes(items@[i as int].end_date@);
                lemma_lex_total(new_best, old_best);
                assert forall|j: int| 0 <= j < i implies lex_le(
                    date_bytes(#[trigger] items@[j].end_date@),
                    new_best,
                ) by {
                    lemma_lex_trans(date_bytes(items@[j].end_date@), old_best, new_best);
                }
            }
            best = i;
        }
        proof {
            lemma_lex_refl(date_bytes(items@[best as int].end_date@));
        }
        i = i + 1;
    }
    let d = items[best].end_date.clone();
    assert(0 <= best < items@.len() && items@[best as int].end_date@ == d@);
    Some(d)
}

/// Whether an item takes part in a view: every item when `on` is `None`,
/// else the items whose end date is `on`.
pub open spec fn selected(item: LineItem, on: Option<Seq<char>>) -> bool {
    match on {
        Some(d) => item.end_date@ == d,
        None => true,
    }
}

/// The positions, in increasing order, of the first `n` items that take part
/// in the view `on` and have grouping key `key`.
pub open spec fn members(items: Seq<LineItem>, n: int, key: Seq<char>, on: Option<Seq<char>>) -> Seq<usize>
    decreases n,
{
    if n <= 0 {
        seq![]
    } else {
        let prev = members(items, n - 1, key, on);
        if selected(items[n - 1], on) && key_of(items[n - 1]) == key {
            prev.push((n - 1) as usize)
        } else {
            prev
        }
    }
}

/// The sum of the cents of the items at positions `idx`.
pub open spec fn cents_of(items: Seq<LineItem>, idx: Seq<usize>) -> int
    decreases idx.len(),
{
    if idx.len() == 0 {
        0
    } else {
        cents_of(items, idx.drop_last()) + items[idx.last() as int].total_price_cents
    }
}

/// One grouped row: the grouping key, the positions of the line items merged
/// into it, in order, and the sum of their cents. The row's other fields
/// (names, unit, tags, dates, unit price) are those of the first of them.
///
/// A view is a `Vec` of rows with distinct keys, searched in order: vstd
/// specifies `HashMap` only for keys whose hashing and equality it models,
/// which `String` keys are not, so a map keyed by the grouping key would
/// leave the sums below unprovable.
pub struct Compressed {
    pub key: String,
    pub total_price_cents: u128,
    pub sources: Vec<usize>,
}

/// Whether a row is the group of `key` among the first `n` items in view `on`.
pub open spec fn row_of(items: Seq<LineItem>, n: int, on: Option<Seq<char>>, row: Compressed) -> bool {
    &&& row.sources@ == members(items, n, row.key@, on)
    &&& row.sources@.len() > 0
    &&& row.total_price_cents == cents_of(items, row.sources@)
}

/// Whether `view` groups the first `n` items that take part in view `on`:
/// one row per key, and a row for the key of each such item.
pub open spec fn groups_upto(items: Seq<LineItem>, n: int, on: Option<Seq<char>>, view: Seq<Compressed>) -> bool {
    &&& forall|a: int, b: int| 0 <= a < b < view.len() ==> view[a].key@ != view[b].key@
    &&& forall|a: int| 0 <= a < view.len() ==> row_of(items, n, on, #[trigger] view[a])
    &&& forall|i: int|
        0 <= i < n && selected(items[i], on) ==> exists|a: int|
            0 <= a < view.len() && #[trigger] view[a].key@ == key_of(#[trigger] items[i])
}

/// Whether `view` groups all of `items` that take part in view `on`.
#[verifier::opaque]
pub open spec fn groups(items: Seq<LineItem>, on: Option<Seq<char>>, view: Seq<Compressed>) -> bool {
    groups_upto(items, items.len() as int, on, view)
}

/// The grouping key of a line item.
pub fn key_string(item: &LineItem) -> (r: String)
    ensures
        r@ == key_of(*item),
{
    match &item.cluster_name {
        Some(c) => {
            let mut k = c.clone();
            k.append("_");
            proof {
                reveal_strlit("_");
            }
            k.append(item.sku.as_str());
            k
        },
        None => item.sku.clone(),
    }
}

fn find_key(view: &Vec<Compressed>, key: &String) -> (r: Option<usize>)
    ensures
        r matches Some(p) ==> p < view@.len() && view@[p as int].key@ == key@,
        r is None ==> forall|a: int| 0 <= a < view@.len() ==> view@[a].key@ != key@,
{
    let mut a: usize = 0;
    while a < view.len()
        invariant
            a <= view@.len(),
            forall|b: int| 0 <= b < a ==> view@[b].key@ != key@,
        decreases view@.len() - a,
    {
        if view[a].key == *key {
            return Some(a);
        }
        a = a + 1;
    }
    None
}

proof fn lemma_cents_push(items: Seq<LineItem>, idx: Seq<usize>, i: usize)
    ensures
        cents_of(items, idx.push(i)) == cents_of(items, idx) + items[i as int].total_price_cents,
{
    assert(idx.push(i).drop_last() =~= idx);
}

proof fn lemma_members_step(items: Seq<LineItem>, n: int, key: Seq<char>, on: Option<Seq<char>>)
    requires
        0 <= n,
    ensures
        members(items, n + 1, key, on) == if selected(items[n], on) && key_of(items[n]) == key {
            members(items, n, key, on).push(n as usize)
        } else {
            members(items, n, key, on)
        },
{
}

proof fn lemma_members_bound(items: Seq<LineItem>, n: int, key: Seq<char>, on: Option<Seq<char>>)
    requires
        0 <= n,
    ensures
        members(items, n, key, on).len() <= n,
        cents_of(items, members(items, n, key, on)) <= members(items, n, key, on).len() * 0xFFFF_FFFF_FFFF_FFFFint,
    decreases n,
{
    if n > 0 {
        lemma_members_bound(items, n - 1, key, on);
        let prev = members(items, n - 1, key, on);
        let cur = members(items, n, key, on);
        if selected(items[n - 1], on) && key_of(items[n - 1]) == key {
            assert(cur.drop_last() =~= prev);
        }
    }
}

/// Groups the line items that take part in view `on` by their key.
fn group(items: &Vec<LineItem>, on: Option<&String>) -> (r: Vec<Compressed>)
    ensures
        groups(items@, match on { Some(d) => Some(d@), None => None }, r@),
{
    let ghost sel = match on { Some(d) => Some(d@), None => None::<Seq<char>> };
    let mut view: Vec<Compressed> = Vec::new();
    let mut i: usize = 0;
    let len = items.len();
    while i < len
        invariant
            len == items@.len(),
            i <= items@.len(),
            items@.len() <= usize::MAX,
            sel == match on { Some(d) => Some(d@), None => None::<Seq<char>> },
            groups_upto(items@, i as int, sel, view@),
        decreases items@.len() - i,
    {
        let item = &items[i];
        let take = match on {
            Some(d) => item.end_date == *d,
            None => true,
        };
        let ghost before = view@;
        let ghost mut at: int = 0;
        proof {
            assert forall|k: Seq<char>| true implies #[trigger] members(items@, i + 1, k, sel) == if selected(items@[i as int], sel) && key_of(items@[i as int]) == k {
                members(items@, i as int, k, sel).push(i)
            } else {
                members(items@, i as int, k, sel)
            } by {
                lemma_members_step(items@, i as int, k, sel);
            }
        }
        if take {
            let key = key_string(item);
            match find_key(&view, &key) {
                Some(p) => {
                    let mut row = view.remove(p);
                    proof {
                        lemma_members_bound(items@, i as int, row.key@, sel);
                        assert(row.total_price_cents <= i * 0xFFFF_FFFF_FFFF_FFFFint) by (nonlinear_arith)
                            requires
                                row.total_price_cents <= row.sources@.len() * 0xFFFF_FFFF_FFFF_FFFFint,
                                row.sources@.len() <= i,
                        ;
                        assert(i * 0xFFFF_FFFF_FFFF_FFFFint + 0xFFFF_FFFF_FFFF_FFFFint < 0x1_0000_0000_0000_0000_0000_0000_0000_0000int) by (nonlinear_arith)
                            requires
                                i < 0x1_0000_0000_0000_0000int,
                        ;
                    }
                    let ghost old_sources = row.sources@;
                    row.total_price_cents = row.total_price_cents + item.total_price_cents as u128;
                    row.sources.push(i);
                    assert(row.sources@.drop_last() =~= old_sources);
                    view.insert(p, row);
                    proof {
                        at = p as int;
                        assert(view@ =~= before.update(p as int, row));
                    }
                },
                None => {
                    let mut sources: Vec<usize> = Vec::new();
                    sources.push(i);
                    let row = Compressed { key, total_price_cents: item.total_price_cents as u128, sources };
                    proof {
                        assert(members(items@, i as int, key@, sel) =~= seq![]) by {
                            if members(items@, i as int, key@, sel).len() > 0 {
                                lemma_members_in(items@, i as int, key@, sel, 0);
                            }
                        }
                        assert(row.sources@.drop_last() =~= seq![]);
                    }
                    view.push(row);
                    proof {
                        at = before.len() as int;
                    }
                },
            }
        }
        proof {
            assert forall|a: int| 0 <= a < view@.len() implies row_of(items@, i + 1, sel, #[trigger] view@[a]) by {
                if take && a == at {
                    let k = key_of(items@[i as int]);
                    assert(view@[a].key@ == k);
                    assert(members(items@, i + 1, k, sel) == members(items@, i as int, k, sel).push(i));
                    if at < before.len() {
                        assert(row_of(items@, i as int, sel, before[at]));
                        assert(view@[a].sources@ == before[at].sources@.push(i));
                    } else {
                        assert(view@[a].sources@ == seq![i]);
                        assert(members(items@, i as int, k, sel) == Seq::<usize>::empty());
                    }
                    assert(view@[a].sources@ == members(items@, i + 1, k, sel));
                    if at < before.len() {
                        lemma_cents_push(items@, before[at].sources@, i);
                    } else {
                        lemma_cents_push(items@, Seq::<usize>::empty(), i);
                        assert(seq![i] =~= Seq::<usize>::empty().push(i));
                    }
                } else {
                    assert(view@[a] == before[a]);
                    assert(row_of(items@, i as int, sel, before[a]));
                    assert(members(items@, i + 1, before[a].key@, sel) == members(items@, i as int, before[a].key@, sel));
                }
            }
            assert forall|j: int|
                0 <= j < i + 1 && selected(items@[j], sel) implies exists|a: int|
                    0 <= a < view@.len() && #[trigger] view@[a].key@ == key_of(#[trigger] items@[j]) by {
                if j < i {
                    let a = choose|a: int| 0 <= a < before.len() && #[trigger] before[a].key@ == key_of(items@[j]);
                    assert(view@[a].key@ == key_of(items@[j]));
                } else {
                    assert(view@[at].key@ == key_of(items@[j]));
                }
            }
        }
        i = i + 1;
    }
    proof {
        reveal(groups);
    }
    view
}

proof fn lemma_members_in(items: Seq<LineItem>, n: int, key: Seq<char>, on: Option<Seq<char>>, k: int)
    requires
        0 <= k < members(items, n, key, on).len(),
        n <= items.len() <= usize::MAX,
    ensures
        0 <= members(items, n, key, on)[k] < n,
        key_of(items[members(items, n, key, on)[k] as int]) == key,
        selected(items[members(items, n, key, on)[k] as int], on),
    decreases n,
{
    let prev = members(items, n - 1, key, on);
    if k < prev.len() {
        lemma_members_in(items, n - 1, key, on, k);
        if selected(items[n - 1], on) && key_of(items[n - 1]) == key {
            assert(prev.push((n - 1) as usize)[k] == prev[k]);
        }
    } else {
        assert(selected(items[n - 1], on) && key_of(items[n - 1]) == key);
        assert(prev.push((n - 1) as usize)[k] == (n - 1) as usize);
    }
}

/// The two views of an invoice: every line item grouped by key (`total`),
/// and the items of the latest end date grouped by key (`rate`).
pub struct Aggregation {
    pub current_date: Option<String>,
    pub total: Vec<Compressed>,
    pub rate: Vec<Compressed>,
}

/// Whether `agg` is the aggregation of `items`.
pub open spec fn aggregates(items: Seq<LineItem>, agg: Aggregation) -> bool {
    &&& groups(items, None, agg.total@)
    &&& match agg.current_date {
        Some(d) => is_latest(items, d@) && groups(items, Some(d@), agg.rate@),
        None => items.len() == 0 && agg.rate@.len() == 0,
    }
}

/// Reduces an invoice's line items into the total view and the rate view.
pub fn aggregate(data: &Data) -> (r: Aggregation)
    ensures
        aggregates(data.line_items@, r),
{
    let items = &data.line_items;
    let total = group(items, None);
    match latest_end_date(items) {
        Some(d) => {
            let rate = group(items, Some(&d));
            Aggregation { current_date: Some(d), total, rate }
        },
        None => Aggregation { current_date: None, total, rate: Vec::new() },
    }
}

/// With no line items, both views are empty.
pub proof fn lemma_empty_invoice(items: Seq<LineItem>, agg: Aggregation)
    requires
        aggregates(items, agg),
        items.len() == 0,
    ensures
        agg.total@.len() == 0,
        agg.rate@.len() == 0,
        agg.current_date is None,
{
    reveal(groups);
    if agg.total@.len() > 0 {
        assert(row_of(items, 0, None, agg.total@[0]));
    }
    if agg.current_date is Some {
        assert(is_latest(items, agg.current_date->0@));
    }
}

/// In the total view, the row of a key holds exactly the line items with
/// that key, and its cents are the sum of theirs.
pub proof fn lemma_total_sums(items: Seq<LineItem>, agg: Aggregation, a: int)
    requires
        aggregates(items, agg),
        0 <= a < agg.total@.len(),
        items.len() <= usize::MAX,
    ensures
        agg.total@[a].sources@ == members(items, items.len() as int, agg.total@[a].key@, None),
        agg.total@[a].total_price_cents == cents_of(items, agg.total@[a].sources@),
        forall|k: int| 0 <= k < agg.total@[a].sources@.len() ==>
            key_of(#[trigger] items[agg.total@[a].sources@[k] as int]) == agg.total@[a].key@,
{
    reveal(groups);
    assert(row_of(items, items.len() as int, None, agg.total@[a]));
    assert forall|k: int| 0 <= k < agg.total@[a].sources@.len() implies
        key_of(#[trigger] items[agg.total@[a].sources@[k] as int]) == agg.total@[a].key@ by {
        lemma_members_in(items, items.len() as int, agg.total@[a].key@, None, k);
    }
}

/// Every line item that makes up a row of the rate view ends on the latest
/// end date of the invoice.
pub proof fn lemma_rate_latest_only(items: Seq<LineItem>, agg: Aggregation, a: int, k: int)
    requires
        aggregates(items, agg),
        items.len() <= usize::MAX,
        0 <= a < agg.rate@.len(),
        0 <= k < agg.rate@[a].sources@.len(),
    ensures
        agg.current_date matches Some(d) && is_latest(items, d@)
            && items[agg.rate@[a].sources@[k] as int].end_date@ == d@,
        key_of(items[agg.rate@[a].sources@[k] as int]) == agg.rate@[a].key@,
{
    reveal(groups);
    let d = agg.current_date->0;
    assert(row_of(items, items.len() as int, Some(d@), agg.rate@[a]));
    lemma_members_in(items, items.len() as int, agg.rate@[a].key@, Some(d@), k);
}

/// How the hourly rate of a rate-view row is had: `Hourly` when the row's
/// unit is already hourly (its unit price is the rate), else `Daily` with the
/// cents of the same key in the total view, to be divided by the quantity,
/// by 100 and by 24.
pub enum RateBasis {
    Hourly,
    Daily { total_cents: u128 },
}

/// Whether a unit is priced by the hour.
pub open spec fn is_hourly_unit(unit: Seq<char>) -> bool {
    unit == "GB hours"@ || unit == "server hours"@
}

/// Whether a unit is priced by the hour.
pub fn hourly_unit(unit: &String) -> (r: bool)
    ensures
        r == is_hourly_unit(unit@),
{
    let gb = String::from_str("GB hours");
    let server = String::from_str("server hours");
    *unit == gb || *unit == server
}

/// The basis of the rate of row `a` of the rate view.
pub fn rate_basis(data: &Data, agg: &Aggregation, a: usize) -> (r: RateBasis)
    requires
        aggregates(data.line_items@, *agg),
        a < agg.rate@.len(),
    ensures
        is_hourly_unit(data.line_items@[agg.rate@[a as int].sources@[0] as int].unit@) ==> r is Hourly,
        !is_hourly_unit(data.line_items@[agg.rate@[a as int].sources@[0] as int].unit@) ==> (r matches RateBasis::Daily { total_cents } && exists|t: int|
            0 <= t < agg.total@.len() && agg.total@[t].key@ == agg.rate@[a as int].key@
                && #[trigger] agg.total@[t].total_price_cents == total_cents),
{
    let d = Ghost(agg.current_date->0);
    let items = &data.line_items;
    // positions of the items fit in a usize
    let len = items.len();
    assert(items@.len() == len);
    let row = &agg.rate[a];
    reveal(groups);
    assert(row_of(items@, items@.len() as int, Some(d@@), *row));
    proof {
        lemma_members_in(items@, items@.len() as int, row.key@, Some(d@@), 0);
    }
    let first = row.sources[0];
    if hourly_unit(&items[first].unit) {
        return RateBasis::Hourly;
    }
    let t = find_key(&agg.total, &row.key);
    match t {
        Some(t) => RateBasis::Daily { total_cents: agg.total[t].total_price_cents },
        None => {
            proof {
                let f = first as int;
                assert(groups(items@, None, agg.total@));
                assert(selected(items@[f], None));
                assert(exists|b: int| 0 <= b < agg.total@.len() && #[trigger] agg.total@[b].key@ == key_of(items@[f]));
            }
            RateBasis::Hourly
        },
    }
}

/// The label set of a published row, taken from the row's first line item.
pub struct Labels {
    pub cluster_name: String,
    pub group_name: String,
    pub sku: String,
    pub project: String,
}

/// The text of an optional name, empty when there is none.
pub open spec fn or_empty(o: Option<String>) -> Seq<char> {
    match o {
        Some(s) => s@,
        None => seq![],
    }
}

/// The first value of the first tag entry whose key is `project`; empty when
/// there is no such entry or it has no value.
pub open spec fn project_in(es: Seq<TagEntry>) -> Seq<char>
    decreases es.len(),
{
    if es.len() == 0 {
        seq![]
    } else if es[0].key@ == "project"@ {
        if es[0].values@.len() > 0 {
            es[0].values@[0]@
        } else {
            seq![]
        }
    } else {
        project_in(es.drop_first())
    }
}

/// The project of a tag field, empty when it is absent at any level.
pub open spec fn project_of(tags: Tags) -> Seq<char> {
    match tags {
        Tags::Present(es) => project_in(es@),
        _ => seq![],
    }
}

fn name_or_empty(o: &Option<String>) -> (r: String)
    ensures
        r@ == or_empty(*o),
{
    match o {
        Some(s) => s.clone(),
        None => String::new(),
    }
}

/// The project named by a tag field.
pub fn project(tags: &Tags) -> (r: String)
    ensures
        r@ == project_of(*tags),
{
    match tags {
        Tags::Present(es) => {
            let wanted = String::from_str("project");
            let mut k: usize = 0;
            assert(es@.subrange(0, es@.len() as int) =~= es@);
            while k < es.len()
                invariant
                    k <= es@.len(),
                    wanted@ == "project"@,
                    project_of(*tags) == project_in(es@),
                    project_in(es@) == project_in(es@.subrange(k as int, es@.len() as int)),
                decreases es@.len() - k,
            {
                assert(es@.subrange(k as int, es@.len() as int).drop_first() =~= es@.subrange(k + 1, es@.len() as int));
                assert(es@.subrange(k as int, es@.len() as int)[0] == es@[k as int]);
                if es[k].key == wanted {
                    let ghost rest = es@.subrange(k as int, es@.len() as int);
                    assert(rest.len() > 0 && rest[0].key@ == "project"@);
                    if es[k].values.len() > 0 {
                        assert(project_in(rest) == rest[0].values@[0]@);
                        return es[k].values[0].clone();
                    }
                    return String::new();
                }
                k = k + 1;
            }
            String::new()
        },
        _ => String::new(),
    }
}

/// The label set of a line item.
pub fn labels(item: &LineItem) -> (r: Labels)
    ensures
        r.cluster_name@ == or_empty(item.cluster_name),
        r.group_name@ == or_empty(item.group_name),
        r.sku@ == item.sku@,
        r.project@ == project_of(item.tags),
{
    Labels {
        cluster_name: name_or_empty(&item.cluster_name),
        group_name: name_or_empty(&item.group_name),
        sku: item.sku.clone(),
        project: project(&item.tags),
    }
}

} // verus!
