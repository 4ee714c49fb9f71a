//! HID collections of the mouse, the choice of the battery interface and the
//! battery readings built from its responses.

use vstd::prelude::*;
use vstd::string::StringExecFns;
use crate::protocol::{
    BatteryData, PID_WIRED, PID_WIRELESS, USAGE, USAGE_PAGE, VID, parse_battery_response,
    spec_parse_battery_response, spec_battery_frame, lemma_parse_battery_frame,
};

verus! {

/// One HID collection as the operating system enumerates it.
#[derive(Debug, Clone)]
pub struct HidCollection {
    pub path: String,
    pub vendor_id: u16,
    pub product_id: u16,
    pub product_string: String,
    pub manufacturer_string: String,
    pub usage_page: u16,
    pub usage: u16,
    pub interface_number: i32,
}

/// A battery reading together with the device it came from.
#[derive(Debug, Clone, PartialEq, Eq)]
pub struct BatteryReading {
    pub percent: u8,
    pub wired: bool,
    pub charging: bool,
    pub voltage_mv: Option<u16>,
    pub vendor_id: u16,
    pub product_id: u16,
    pub product_string: String,
}

/// The state word shown next to a reading.
pub open spec fn spec_state_label(r: BatteryReading) -> Seq<char> {
    if r.charging {
        "charging"@
    } else if r.wired && r.percent >= 100 {
        "full"@
    } else if r.wired {
        "wired"@
    } else {
        "discharging"@
    }
}

/// The reading built from a decoded report and the collection that sent it.
pub open spec fn spec_from_parts(parsed: BatteryData, collection: HidCollection) -> BatteryReading {
    BatteryReading {
        percent: parsed.percent,
        wired: parsed.wired,
        charging: parsed.charging,
        voltage_mv: parsed.voltage_mv,
        vendor_id: collection.vendor_id,
        product_id: collection.product_id,
        product_string: collection.product_string,
    }
}

impl BatteryReading {
    /// "charging", "full" (wired at 100 %), "wired" or "discharging".
    pub fn state_label(&self) -> (label: &'static str)
        ensures
            label@ == spec_state_label(*self),
    {
        if self.charging {
            "charging"
        } else if self.wired && self.percent >= 100 {
            "full"
        } else if self.wired {
            "wired"
        } else {
            "discharging"
        }
    }

    pub fn from_parts(parsed: BatteryData, collection: &HidCollection) -> (r: Self)
        ensures
            r == spec_from_parts(parsed, *collection),
    {
        BatteryReading {
            percent: parsed.percent,
            wired: parsed.wired,
            charging: parsed.charging,
            voltage_mv: parsed.voltage_mv,
            vendor_id: collection.vendor_id,
            product_id: collection.product_id,
            product_string: collection.product_string.clone(),
        }
    }
}

/// What one poll of the mouse produced: a reading, or the notes that say why
/// there is none.
#[derive(Debug)]
pub struct PollResult {
    pub reading: Option<BatteryReading>,
    pub errors: Vec<String>,
}

impl Default for PollResult {
    fn default() -> (r: Self)
        ensures
            r.reading is None,
            r.errors@.len() == 0,
    {
        PollResult { reading: None, errors: Vec::new() }
    }
}

/// The result of a poll once the HID layer is up: the reading when there is
/// one; otherwise a single note, which tells a missing battery interface apart
/// from one that did not answer.
pub fn poll_result(reading: Option<BatteryReading>, interface_found: bool) -> (r: PollResult)
    ensures
        r.reading == reading,
        reading is Some ==> r.errors@.len() == 0,
        reading is None ==> r.errors@.len() == 1 && r.errors@[0]@ == (if interface_found {
            "Device found but battery query failed"@
        } else {
            "No Compx R11 Ultra battery interface found"@
        }),
{
    let mut result = PollResult::default();
    match reading {
        Some(r) => {
            result.reading = Some(r);
        },
        None => {
            if interface_found {
                result.errors.push(String::from_str("Device found but battery query failed"));
            } else {
                result.errors.push(String::from_str("No Compx R11 Ultra battery interface found"));
            }
        },
    }
    result
}

/// The reading that a response from `collection` yields, if any.
pub open spec fn spec_reading_from_response(
    collection: HidCollection,
    response: Option<Seq<u8>>,
) -> Option<BatteryReading> {
    match response {
        Some(data) => match spec_parse_battery_response(data) {
            Some(parsed) => Some(spec_from_parts(parsed, collection)),
            None => None,
        },
        None => None,
    }
}

/// Decodes the reply that `collection` gave to the battery request (`None`
/// when it gave none) into a reading.
pub fn reading_from_response(collection: &HidCollection, response: Option<Vec<u8>>) -> (r: Option<
    BatteryReading,
>)
    ensures
        r == spec_reading_from_response(
            *collection,
            match response {
                Some(v) => Some(v@),
                None => None,
            },
        ),
{
    match response {
        Some(data) => match parse_battery_response(data.as_slice()) {
            Some(parsed) => Some(BatteryReading::from_parts(parsed, collection)),
            None => None,
        },
        None => None,
    }
}

/// A reading carries the decoded report's own battery fields and the
/// collection's identity, unchanged.
pub proof fn lemma_from_parts_fields(parsed: BatteryData, collection: HidCollection)
    ensures
        ({
            let r = spec_from_parts(parsed, collection);
            &&& r.percent == parsed.percent
            &&& r.wired == parsed.wired
            &&& r.charging == parsed.charging
            &&& r.voltage_mv == parsed.voltage_mv
            &&& r.vendor_id == collection.vendor_id
            &&& r.product_id == collection.product_id
            &&& r.product_string == collection.product_string
        }),
{
}

/// A well-formed report from a collection becomes a reading with the
/// report's percentage and cable flag, charging exactly when on the cable and
/// below 100 %, the reported voltage (none when zero), and the collection's
/// identity.
pub proof fn lemma_reading_from_frame(
    collection: HidCollection,
    percent: u8,
    wired: u8,
    voltage: u16,
)
    requires
        percent <= 100,
    ensures
        ({
            let reading = spec_reading_from_response(
                collection,
                Some(spec_battery_frame(percent, wired, voltage)),
            );
            &&& reading is Some
            &&& reading->0.percent == percent
            &&& reading->0.wired == (wired != 0)
            &&& reading->0.charging == (wired != 0 && percent < 100)
            &&& reading->0.voltage_mv == if voltage == 0 { None::<u16> } else { Some(voltage) }
            &&& reading->0.vendor_id == collection.vendor_id
            &&& reading->0.product_id == collection.product_id
            &&& reading->0.product_string == collection.product_string
        }),
{
    lemma_parse_battery_frame(percent, wired, voltage);
}

/// The state word follows the flags: "charging" exactly while charging; a
/// mouse on its cable and not charging is "full" at 100 % and "wired"
/// below; off the cable and not charging it is "discharging".
pub proof fn lemma_state_label(r: BatteryReading)
    ensures
        r.charging ==> spec_state_label(r) == "charging"@,
        !r.charging && r.wired && r.percent >= 100 ==> spec_state_label(r) == "full"@,
        !r.charging && r.wired && r.percent < 100 ==> spec_state_label(r) == "wired"@,
        !r.charging && !r.wired ==> spec_state_label(r) == "discharging"@,
{
}

/// Where a battery query over the candidate collections goes next.
#[derive(Debug)]
pub enum QueryStep {
    /// Ask the collection at this index.
    Next(usize),
    /// The query ends with this reading, or without one.
    Finished(Option<BatteryReading>),
}

pub open spec fn response_view(response: Option<Vec<u8>>) -> Option<Seq<u8>> {
    match response {
        Some(v) => Some(v@),
        None => None,
    }
}

/// One step of asking `targets` in order: the reading of the collection at
/// `index` when its reply decodes, otherwise the next collection, and no
/// reading once the last one has failed.
pub fn battery_query_step(targets: &Vec<HidCollection>, index: usize, response: Option<Vec<u8>>) -> (s:
    QueryStep)
    requires
        index < targets@.len(),
    ensures
        match spec_reading_from_response(targets@[index as int], response_view(response)) {
            Some(r) => s == QueryStep::Finished(Some(r)),
            None => if index + 1 < targets@.len() {
                s == QueryStep::Next((index + 1) as usize)
            } else {
                s == QueryStep::Finished(None)
            },
        },
{
    match reading_from_response(&targets[index], response) {
        Some(r) => QueryStep::Finished(Some(r)),
        None => {
            if index < targets.len() - 1 {
                QueryStep::Next(index + 1)
            } else {
                QueryStep::Finished(None)
            }
        },
    }
}

/// The reading a query over `targets` ends with when collection `i` replies
/// `responses[i]`, starting at `from`: the first reply that decodes, in
/// order.
pub open spec fn spec_query_result(
    targets: Seq<HidCollection>,
    responses: Seq<Option<Seq<u8>>>,
    from: int,
) -> Option<BatteryReading>
    decreases targets.len() - from,
{
    if from < 0 || from >= targets.len() {
        None
    } else {
        match spec_reading_from_response(targets[from], responses[from]) {
            Some(r) => Some(r),
            None => spec_query_result(targets, responses, from + 1),
        }
    }
}

/// Stepping through the targets finds the first collection, in preference
/// order, whose reply decodes: a step that moves on keeps the query's result,
/// and a step that finishes gives it.
pub proof fn lemma_query_step_follows_order(
    targets: Seq<HidCollection>,
    responses: Seq<Option<Seq<u8>>>,
    index: int,
)
    requires
        0 <= index < targets.len(),
    ensures
        spec_reading_from_response(targets[index], responses[index]) is None && index + 1
            < targets.len() ==> spec_query_result(targets, responses, index) == spec_query_result(
            targets,
            responses,
            index + 1,
        ),
        spec_reading_from_response(targets[index], responses[index]) is None && index + 1
            == targets.len() ==> spec_query_result(targets, responses, index) is None,
        spec_reading_from_response(targets[index], responses[index]) is Some ==> spec_query_result(
            targets,
            responses,
            index,
        ) == spec_reading_from_response(targets[index], responses[index]),
{
    reveal_with_fuel(spec_query_result, 2);
}

/// Collections of the Compx vendor.
pub open spec fn is_compx() -> spec_fn(HidCollection) -> bool {
    |c: HidCollection| c.vendor_id == VID
}

/// Collections on the vendor battery usage page and usage.
pub open spec fn is_battery_interface() -> spec_fn(HidCollection) -> bool {
    |c: HidCollection| c.usage_page == USAGE_PAGE && c.usage == USAGE
}

/// Wireless dongle first, then the wired cable, then anything else.
pub open spec fn preference_rank(product_id: u16) -> int {
    if product_id == PID_WIRELESS {
        0
    } else if product_id == PID_WIRED {
        1
    } else {
        2
    }
}

/// The order key (rank, product id), read as one integer: product ids are
/// below 65536, so integer order is the lexicographic order of the pair.
pub open spec fn spec_sort_key(c: HidCollection) -> int {
    preference_rank(c.product_id) * 65536 + c.product_id
}

pub open spec fn sorted_by_key(s: Seq<HidCollection>) -> bool {
    forall|i: int, j: int|
        0 <= i < j < s.len() ==> spec_sort_key(#[trigger] s[i]) <= spec_sort_key(#[trigger] s[j])
}

/// Collections whose order key is `k`.
pub open spec fn key_is(k: int) -> spec_fn(HidCollection) -> bool {
    |c: HidCollection| spec_sort_key(c) == k
}

/// The elements of `s` whose key is `k`, in their order in `s`.
pub open spec fn with_key(s: Seq<HidCollection>, k: int) -> Seq<HidCollection> {
    s.filter(key_is(k))
}

/// `r` is the stable sort of `s` by the preference key: it is ordered by the
/// key and keeps, for every key, the same elements in the same order.
pub open spec fn is_preference_order(r: Seq<HidCollection>, s: Seq<HidCollection>) -> bool {
    &&& sorted_by_key(r)
    &&& forall|k: int| #[trigger] with_key(r, k) == with_key(s, k)
}

/// The battery interfaces among `devices`, before ordering.
pub open spec fn spec_battery_candidates(devices: Seq<HidCollection>) -> Seq<HidCollection> {
    devices.filter(is_compx()).filter(is_battery_interface())
}

impl HidCollection {
    /// Whether this collection is on the vendor battery usage page and usage.
    pub fn is_battery_interface(&self) -> (b: bool)
        ensures
            b == is_battery_interface()(*self),
    {
        self.usage_page == USAGE_PAGE && self.usage == USAGE
    }
}

fn sort_key(c: &HidCollection) -> (k: u32)
    ensures
        k == spec_sort_key(*c),
{
    let rank: u32 = if c.product_id == PID_WIRELESS {
        0
    } else if c.product_id == PID_WIRED {
        1
    } else {
        2
    };
    rank * 65536 + c.product_id as u32
}

/// The collections of `devices` that belong to the Compx vendor, in order.
pub fn enumerate_compx(devices: Vec<HidCollection>) -> (r: Vec<HidCollection>)
    ensures
        r@ == devices@.filter(is_compx()),
{
    let ghost m = devices@;
    let mut rest = devices;
    let mut kept: Vec<HidCollection> = Vec::new();
    let ghost mut i: int = 0;
    while rest.len() > 0
        invariant
            0 <= i <= m.len(),
            rest@ == m.skip(i),
            kept@ == m.take(i).filter(is_compx()),
        decreases rest.len(),
    {
        let c = rest.remove(0);
        proof {
            assert(m.take(i + 1) =~= m.take(i).push(c));
            m.take(i).lemma_filter_push(c, is_compx());
        }
        if c.vendor_id == VID {
            kept.push(c);
        }
        proof {
            assert(rest@ =~= m.skip(i + 1));
            i = i + 1;
        }
    }
    proof {
        assert(m.take(i) =~= m);
    }
    kept
}

fn keep_battery_interfaces(devices: Vec<HidCollection>) -> (r: Vec<HidCollection>)
    ensures
        r@ == devices@.filter(is_battery_interface()),
{
    let ghost m = devices@;
    let mut rest = devices;
    let mut kept: Vec<HidCollection> = Vec::new();
    let ghost mut i: int = 0;
    while rest.len() > 0
        invariant
            0 <= i <= m.len(),
            rest@ == m.skip(i),
            kept@ == m.take(i).filter(is_battery_interface()),
        decreases rest.len(),
    {
        let c = rest.remove(0);
        proof {
            assert(m.take(i + 1) =~= m.take(i).push(c));
            m.take(i).lemma_filter_push(c, is_battery_interface());
        }
        if c.usage_page == USAGE_PAGE && c.usage == USAGE {
            kept.push(c);
        }
        proof {
            assert(rest@ =~= m.skip(i + 1));
            i = i + 1;
        }
    }
    proof {
        assert(m.take(i) =~= m);
    }
    kept
}

proof fn lemma_with_key_push(s: Seq<HidCollection>, c: HidCollection, k: int)
    ensures
        with_key(s.push(c), k) == if spec_sort_key(c) == k {
            with_key(s, k).push(c)
        } else {
            with_key(s, k)
        },
{
    s.lemma_filter_push(c, key_is(k));
}

proof fn lemma_with_key_add(a: Seq<HidCollection>, b: Seq<HidCollection>, k: int)
    ensures
        with_key(a + b, k) == with_key(a, k) + with_key(b, k),
{
    Seq::filter_distributes_over_add(a, b, key_is(k));
}

proof fn lemma_with_key_none(s: Seq<HidCollection>, k: int)
    requires
        forall|j: int| 0 <= j < s.len() ==> spec_sort_key(#[trigger] s[j]) != k,
    ensures
        with_key(s, k) == Seq::<HidCollection>::empty(),
    decreases s.len(),
{
    reveal(Seq::filter);
    if s.len() > 0 {
        lemma_with_key_none(s.drop_last(), k);
    }
}

/// Inserting `c` just after the elements whose key is at most its own keeps
/// the sequence ordered and appends `c` to its own key group.
proof fn lemma_insert_in_order(s: Seq<HidCollection>, p: int, c: HidCollection, k: int)
    requires
        sorted_by_key(s),
        0 <= p <= s.len(),
        forall|j: int| 0 <= j < p ==> spec_sort_key(#[trigger] s[j]) <= spec_sort_key(c),
        forall|j: int| p <= j < s.len() ==> spec_sort_key(#[trigger] s[j]) > spec_sort_key(c),
    ensures
        sorted_by_key(s.insert(p, c)),
        with_key(s.insert(p, c), k) == if spec_sort_key(c) == k {
            with_key(s, k).push(c)
        } else {
            with_key(s, k)
        },
{
    let a = s.take(p);
    let b = s.skip(p);
    let one = seq![c];
    assert(s.insert(p, c) =~= a + one + b);
    assert(s =~= a + b);
    assert(one =~= Seq::<HidCollection>::empty().push(c));
    lemma_with_key_add(a + one, b, k);
    lemma_with_key_add(a, one, k);
    lemma_with_key_add(a, b, k);
    lemma_with_key_push(Seq::<HidCollection>::empty(), c, k);
    lemma_with_key_none(Seq::<HidCollection>::empty(), k);
    if spec_sort_key(c) == k {
        assert forall|j: int| 0 <= j < b.len() implies spec_sort_key(#[trigger] b[j]) != k by {
            assert(b[j] == s[p + j]);
        }
        lemma_with_key_none(b, k);
        assert(with_key(a + one, k) =~= with_key(a, k).push(c));
        assert(with_key(a, k) + with_key(b, k) =~= with_key(a, k));
        assert(with_key(a + one + b, k) =~= with_key(a, k).push(c));
    } else {
        assert(with_key(a, k) + with_key(one, k) =~= with_key(a, k));
    }
    let r = s.insert(p, c);
    assert forall|i: int, j: int| 0 <= i < j < r.len() implies spec_sort_key(#[trigger] r[i])
        <= spec_sort_key(#[trigger] r[j]) by {
        if j < p {
            assert(r[i] == s[i] && r[j] == s[j]);
        } else if j == p {
            assert(r[i] == s[i]);
        } else if i < p {
            assert(r[i] == s[i] && r[j] == s[j - 1]);
        } else if i == p {
            assert(r[j] == s[j - 1]);
        } else {
            assert(r[i] == s[i - 1] && r[j] == s[j - 1]);
        }
    }
}

/// Stable sort of `candidates` by the preference key.
fn sort_by_preference(candidates: Vec<HidCollection>) -> (r: Vec<HidCollection>)
    ensures
        is_preference_order(r@, candidates@),
        r@.to_multiset() == candidates@.to_multiset(),
{
    let ghost m = candidates@;
    let mut rest = candidates;
    let mut sorted: Vec<HidCollection> = Vec::new();
    let ghost mut i: int = 0;
    proof {
        assert(m.take(0) =~= sorted@);
        assert forall|k: int| #[trigger] with_key(sorted@, k) == with_key(m.take(0), k) by {
            lemma_with_key_none(sorted@, k);
            lemma_with_key_none(m.take(0), k);
        }
    }
    while rest.len() > 0
        invariant
            0 <= i <= m.len(),
            rest@ == m.skip(i),
            sorted_by_key(sorted@),
            forall|k: int| #[trigger] with_key(sorted@, k) == with_key(m.take(i), k),
            sorted@.to_multiset() == m.take(i).to_multiset(),
        decreases rest.len(),
    {
        let c = rest.remove(0);
        let kc = sort_key(&c);
        let mut p: usize = 0;
        while p < sorted.len()
            invariant_except_break
                p <= sorted@.len(),
                forall|j: int| 0 <= j < p ==> spec_sort_key(#[trigger] sorted@[j]) <= kc,
            ensures
                p <= sorted@.len(),
                forall|j: int| 0 <= j < p ==> spec_sort_key(#[trigger] sorted@[j]) <= kc,
                p < sorted@.len() ==> spec_sort_key(sorted@[p as int]) > kc,
            decreases sorted@.len() - p,
        {
            if sort_key(&sorted[p]) > kc {
                break;
            }
            p = p + 1;
        }
        let ghost before = sorted@;
        proof {
            assert forall|j: int| p <= j < before.len() implies spec_sort_key(#[trigger] before[j])
                > spec_sort_key(c) by {
                if j > p {
                    assert(spec_sort_key(before[p as int]) <= spec_sort_key(before[j]));
                }
            }
            assert(m.take(i + 1) =~= m.take(i).push(c));
            assert forall|k: int| #[trigger] with_key(before.insert(p as int, c), k) == with_key(
                m.take(i + 1),
                k,
            ) by {
                lemma_insert_in_order(before, p as int, c, k);
                lemma_with_key_push(m.take(i), c, k);
            }
            lemma_insert_in_order(before, p as int, c, 0);
            vstd::seq_lib::to_multiset_insert(before, p as int, c);
            vstd::seq_lib::to_multiset_build(m.take(i), c);
        }
        sorted.insert(p, c);
        proof {
            assert(rest@ =~= m.skip(i + 1));
            i = i + 1;
        }
    }
    proof {
        assert(m.take(i) =~= m);
    }
    sorted
}

/// The battery interfaces of the mouse among `devices`, wireless dongle
/// first, then the wired cable, then any other product; collections of one
/// product keep their enumeration order.
pub fn battery_collections(devices: Vec<HidCollection>) -> (r: Vec<HidCollection>)
    ensures
        is_preference_order(r@, spec_battery_candidates(devices@)),
        r@.to_multiset() == spec_battery_candidates(devices@).to_multiset(),
{
    let compx = enumerate_compx(devices);
    let matched = keep_battery_interfaces(compx);
    sort_by_preference(matched)
}

/// An ordered list holds exactly the collections it was ordered from.
pub proof fn lemma_preference_order_members(
    r: Seq<HidCollection>,
    s: Seq<HidCollection>,
    c: HidCollection,
)
    requires
        is_preference_order(r, s),
    ensures
        r.contains(c) <==> s.contains(c),
{
    let k = spec_sort_key(c);
    if s.contains(c) {
        let i = choose|i: int| 0 <= i < s.len() && s[i] == c;
        s.lemma_filter_contains(key_is(k), i);
        assert(with_key(r, k) == with_key(s, k));
        r.lemma_filter_contains_rev(key_is(k), c);
    }
    if r.contains(c) {
        let i = choose|i: int| 0 <= i < r.len() && r[i] == c;
        r.lemma_filter_contains(key_is(k), i);
        assert(with_key(r, k) == with_key(s, k));
        s.lemma_filter_contains_rev(key_is(k), c);
    }
}

/// The wireless dongle is preferred: when any wireless collection is among
/// the candidates the ordered list starts with one; otherwise, when a wired
/// one is, the list starts with a wired one.
pub proof fn lemma_prefers_wireless(r: Seq<HidCollection>, s: Seq<HidCollection>)
    requires
        is_preference_order(r, s),
    ensures
        (exists|i: int| 0 <= i < s.len() && s[i].product_id == PID_WIRELESS) ==> r.len() > 0
            && r[0].product_id == PID_WIRELESS,
        (exists|i: int| 0 <= i < s.len() && s[i].product_id == PID_WIRED) && !(exists|i: int|
            0 <= i < s.len() && s[i].product_id == PID_WIRELESS) ==> r.len() > 0 && r[0].product_id
            == PID_WIRED,
{
    if exists|i: int| 0 <= i < s.len() && s[i].product_id == PID_WIRELESS {
        let i = choose|i: int| 0 <= i < s.len() && s[i].product_id == PID_WIRELESS;
        lemma_preference_order_members(r, s, s[i]);
        assert(s.contains(s[i]));
        let j = choose|j: int| 0 <= j < r.len() && r[j] == s[i];
        if j > 0 {
            assert(spec_sort_key(r[0]) <= spec_sort_key(r[j]));
        }
    } else if exists|i: int| 0 <= i < s.len() && s[i].product_id == PID_WIRED {
        let i = choose|i: int| 0 <= i < s.len() && s[i].product_id == PID_WIRED;
        lemma_preference_order_members(r, s, s[i]);
        assert(s.contains(s[i]));
        let j = choose|j: int| 0 <= j < r.len() && r[j] == s[i];
        if j > 0 {
            assert(spec_sort_key(r[0]) <= spec_sort_key(r[j]));
        }
        lemma_preference_order_members(r, s, r[0]);
        assert(r.contains(r[0]));
        let h = choose|h: int| 0 <= h < s.len() && s[h] == r[0];
        assert(s[h].product_id != PID_WIRELESS);
    }
}

/// Write-and-listen rounds of one battery transaction.
pub const TRANSACT_ATTEMPTS: u8 = 3;

/// What the HID layer does next in a transaction.
#[derive(Debug)]
pub enum TransactAction {
    /// Write the request now.
    Write,
    /// Wait the transaction delay, then write the request.
    PauseThenWrite,
    /// Wait the transaction delay, then read replies for up to one second.
    PauseThenListen,
    /// Read again while the one second lasts.
    Read,
    /// Wait the transaction delay; the transaction then ends without a reply.
    PauseThenGiveUp,
    /// The transaction ends with this reply, or without one.
    Done(Option<Vec<u8>>),
}

/// What the HID layer reports back.
#[derive(Debug)]
pub enum TransactEvent {
    /// Writing the request failed.
    WriteFailed,
    /// The request was written; this many bytes went out.
    Written(usize),
    /// A read returned no data in its time.
    ReadNothing,
    /// A read filled this buffer with this many bytes.
    ReadBytes(Vec<u8>, usize),
    /// A read failed.
    ReadFailed,
    /// The second of listening ran out.
    DeadlinePassed,
}

/// One request-reply exchange with a HID collection.
#[derive(Debug)]
pub struct Transaction {
    pub report_id: u8,
    pub read_length: usize,
    pub attempt: u8,
}

/// The reply kept from a read of `n` bytes into `buf`: cut to at least
/// `read_length` bytes (as far as the buffer goes), then to `read_length`.
pub open spec fn spec_kept_reply(buf: Seq<u8>, n: usize, read_length: usize) -> Seq<u8> {
    let wanted = if n >= read_length { n as int } else { read_length as int };
    let first = if wanted <= buf.len() { buf.take(wanted) } else { buf };
    if first.len() >= read_length { first.take(read_length as int) } else { first }
}

impl Transaction {
    /// A transaction for `report`, whose first byte is the report id that a
    /// reply must carry; none for an empty report. It starts by writing.
    pub fn start(report: &[u8], read_length: usize) -> (t: Option<Transaction>)
        ensures
            report@.len() == 0 ==> t is None,
            report@.len() > 0 ==> t == Some(
                Transaction { report_id: report@[0], read_length, attempt: 0 },
            ),
    {
        if report.len() == 0 {
            None
        } else {
            Some(Transaction { report_id: report[0], read_length, attempt: 0 })
        }
    }

    /// The next step after `event`. A failed write ends the transaction; a
    /// write that sent nothing, a failed read and the end of the listening
    /// second each use up a round, and after `TRANSACT_ATTEMPTS` rounds the
    /// transaction ends without a reply; a reply whose first byte is the
    /// report id ends it with that reply; any other read keeps listening.
    pub fn on_event(&mut self, event: TransactEvent) -> (action: TransactAction)
        requires
            old(self).attempt < TRANSACT_ATTEMPTS,
        ensures
            final(self).report_id == old(self).report_id,
            final(self).read_length == old(self).read_length,
            final(self).attempt <= TRANSACT_ATTEMPTS,
            match event {
                TransactEvent::WriteFailed => final(self).attempt == old(self).attempt && action
                    matches TransactAction::Done(None),
                TransactEvent::Written(n) => if n >= 1 {
                    final(self).attempt == old(self).attempt && action is PauseThenListen
                } else {
                    &&& final(self).attempt == old(self).attempt + 1
                    &&& if final(self).attempt == TRANSACT_ATTEMPTS {
                        action is PauseThenGiveUp
                    } else {
                        action is PauseThenWrite
                    }
                },
                TransactEvent::ReadNothing => final(self).attempt == old(self).attempt
                    && action is Read,
                TransactEvent::ReadBytes(buf, n) => final(self).attempt == old(self).attempt && if buf@.len()
                    > 0 && buf@[0] == old(self).report_id {
                    action matches TransactAction::Done(Some(reply)) && reply@ == spec_kept_reply(
                        buf@,
                        n,
                        old(self).read_length,
                    )
                } else {
                    action is Read
                },
                _ => {
                    &&& final(self).attempt == old(self).attempt + 1
                    &&& if final(self).attempt == TRANSACT_ATTEMPTS {
                        action matches TransactAction::Done(None)
                    } else {
                        action is Write
                    }
                },
            },
    {
        match event {
            TransactEvent::WriteFailed => TransactAction::Done(None),
            TransactEvent::Written(n) => {
                if n < 1 {
                    self.attempt = self.attempt + 1;
                    if self.attempt == TRANSACT_ATTEMPTS {
                        TransactAction::PauseThenGiveUp
                    } else {
                        TransactAction::PauseThenWrite
                    }
                } else {
                    TransactAction::PauseThenListen
                }
            },
            TransactEvent::ReadNothing => TransactAction::Read,
            TransactEvent::ReadBytes(buf, n) => {
                if buf.len() > 0 && buf[0] == self.report_id {
                    let ghost orig = buf@;
                    let mut buf = buf;
                    let wanted = if n >= self.read_length {
                        n
                    } else {
                        self.read_length
                    };
                    let cut = if wanted <= buf.len() {
                        wanted
                    } else {
                        buf.len()
                    };
                    buf.truncate(cut);
                    if buf.len() >= self.read_length {
                        buf.truncate(self.read_length);
                    }
                    assert(buf@ =~= spec_kept_reply(orig, n, self.read_length));
                    TransactAction::Done(Some(buf))
                } else {
                    TransactAction::Read
                }
            },
            TransactEvent::ReadFailed | TransactEvent::DeadlinePassed => {
                self.attempt = self.attempt + 1;
                if self.attempt == TRANSACT_ATTEMPTS {
                    TransactAction::Done(None)
                } else {
                    TransactAction::Write
                }
            },
        }
    }
}

/// When the read buffer holds at least `read_length` bytes, a kept reply is
/// exactly its first `read_length` bytes, so it starts with the report id.
pub proof fn lemma_kept_reply_length(buf: Seq<u8>, n: usize, read_length: usize)
    requires
        buf.len() >= read_length,
    ensures
        spec_kept_reply(buf, n, read_length) == buf.take(read_length as int),
{
}

} // verus!
