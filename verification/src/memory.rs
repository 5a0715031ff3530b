//! The memory-module inventory: per-slot demultiplexing of the raw
//! property snapshot, typed record construction, and the derived
//! aggregate views.

use vstd::prelude::*;
use vstd::string::StringExecFns;

use crate::error::Error;
use crate::props::PropMap;

verus! {

/// Closed classification of a memory module's type, with an escape
/// hatch that keeps an unrecognized literal verbatim.
#[derive(Debug, Clone, PartialEq, Eq)]
pub enum MemType {
    Ddr5,
    Ddr4,
    Ddr3,
    Unknown,
    Other(String),
}

/// The specification-level value of a [`MemType`].
pub enum MemTypeView {
    Ddr5,
    Ddr4,
    Ddr3,
    Unknown,
    Other(Seq<char>),
}

impl View for MemType {
    type V = MemTypeView;

    open spec fn view(&self) -> MemTypeView {
        match self {
            MemType::Ddr5 => MemTypeView::Ddr5,
            MemType::Ddr4 => MemTypeView::Ddr4,
            MemType::Ddr3 => MemTypeView::Ddr3,
            MemType::Unknown => MemTypeView::Unknown,
            MemType::Other(s) => MemTypeView::Other(s@),
        }
    }
}

/// Classification of a raw type string: total and exact, case
/// sensitive, with any unrecognized literal kept verbatim.
pub open spec fn classify(s: Seq<char>) -> MemTypeView {
    if s == "DDR5"@ {
        MemTypeView::Ddr5
    } else if s == "DDR4"@ {
        MemTypeView::Ddr4
    } else if s == "DDR3"@ {
        MemTypeView::Ddr3
    } else if s == "Unknown"@ {
        MemTypeView::Unknown
    } else {
        MemTypeView::Other(s)
    }
}

impl From<String> for MemType {
    fn from(value: String) -> (r: MemType) {
        if crate::text::str_eq(value.as_str(), "DDR5") {
            MemType::Ddr5
        } else if crate::text::str_eq(value.as_str(), "DDR4") {
            MemType::Ddr4
        } else if crate::text::str_eq(value.as_str(), "DDR3") {
            MemType::Ddr3
        } else if crate::text::str_eq(value.as_str(), "Unknown") {
            MemType::Unknown
        } else {
            MemType::Other(value)
        }
    }
}

impl vstd::std_specs::convert::FromSpecImpl<String> for MemType {
    open spec fn obeys_from_spec() -> bool {
        true
    }

    open spec fn from_spec(value: String) -> MemType {
        if value@ == "DDR5"@ {
            MemType::Ddr5
        } else if value@ == "DDR4"@ {
            MemType::Ddr4
        } else if value@ == "DDR3"@ {
            MemType::Ddr3
        } else if value@ == "Unknown"@ {
            MemType::Unknown
        } else {
            MemType::Other(value)
        }
    }
}

/// The rendered display text of a classified type: the recognized
/// literals come back as written, and `Other` yields its raw string.
pub open spec fn render_type(t: MemTypeView) -> Seq<char> {
    match t {
        MemTypeView::Ddr5 => "DDR5"@,
        MemTypeView::Ddr4 => "DDR4"@,
        MemTypeView::Ddr3 => "DDR3"@,
        MemTypeView::Unknown => "Unknown"@,
        MemTypeView::Other(s) => s,
    }
}

impl MemType {
    /// The display text of this classification, as [`render_type`]
    /// describes.
    pub fn render(&self) -> (r: String)
        ensures
            r@ == render_type(self@),
    {
        match self {
            MemType::Ddr5 => "DDR5".to_owned(),
            MemType::Ddr4 => "DDR4".to_owned(),
            MemType::Ddr3 => "DDR3".to_owned(),
            MemType::Unknown => "Unknown".to_owned(),
            MemType::Other(s) => s.clone(),
        }
    }
}

/// The property-name prefix under which slot `i`'s fields are stored.
pub open spec fn slot_prefix(i: nat) -> Seq<char> {
    "MEMORY_DEVICE_"@ + crate::text::dec_str(i) + "_"@
}

/// The per-slot subset of a raw mapping: exactly the entries whose key
/// starts with slot `i`'s prefix, re-keyed by the stripped name.
pub open spec fn slot_view(m: Map<Seq<char>, Seq<char>>, i: nat) -> Map<Seq<char>, Seq<char>> {
    Map::new(
        |k: Seq<char>| m.contains_key(slot_prefix(i) + k),
        |k: Seq<char>| m[slot_prefix(i) + k],
    )
}

/// The subset with prefix `p`, read off entry by entry.
spec fn demux_of(s: Seq<(Seq<char>, Seq<char>)>, p: Seq<char>) -> Map<Seq<char>, Seq<char>>
    decreases s.len(),
{
    if s.len() == 0 {
        Map::empty()
    } else {
        let r = demux_of(s.drop_last(), p);
        if crate::text::is_prefix(p, s.last().0) {
            r.insert(s.last().0.subrange(p.len() as int, s.last().0.len() as int), s.last().1)
        } else {
            r
        }
    }
}

/// Reading the subset entry by entry agrees with restricting the
/// mapping the entries denote.
proof fn lemma_demux_of_map(s: Seq<(Seq<char>, Seq<char>)>, p: Seq<char>, q: Seq<char>)
    ensures
        demux_of(s, p).contains_key(q) <==> crate::props::map_of_pairs(s).contains_key(p + q),
        demux_of(s, p).contains_key(q) ==> demux_of(s, p)[q] == crate::props::map_of_pairs(s)[p
            + q],
    decreases s.len(),
{
    if s.len() > 0 {
        lemma_demux_of_map(s.drop_last(), p, q);
        let key = s.last().0;
        assert(crate::text::is_prefix(p, p + q)) by {
            assert((p + q).subrange(0, p.len() as int) =~= p);
        }
        assert((p + q).subrange(p.len() as int, (p + q).len() as int) =~= q);
        if crate::text::is_prefix(p, key) {
            assert(key =~= p + key.subrange(p.len() as int, key.len() as int));
        } else {
            if key == p + q {
                assert(crate::text::is_prefix(p, key));
            }
        }
    }
}

/// One physical memory slot's description.
#[derive(Debug, Clone, PartialEq, Eq)]
pub struct MemDevice {
    pub manufacturer: Option<String>,
    pub frequency: Option<u64>,
    pub form_factor: Option<String>,
    pub mem_type: MemType,
    pub extra_props: PropMap,
}

/// The specification-level value of a [`MemDevice`].
pub struct MemDeviceView {
    pub manufacturer: Option<Seq<char>>,
    pub frequency: Option<u64>,
    pub form_factor: Option<Seq<char>>,
    pub mem_type: MemTypeView,
    pub extra_props: Map<Seq<char>, Seq<char>>,
}

impl View for MemDevice {
    type V = MemDeviceView;

    open spec fn view(&self) -> MemDeviceView {
        MemDeviceView {
            manufacturer: self.manufacturer.deep_view(),
            frequency: self.frequency,
            form_factor: self.form_factor.deep_view(),
            mem_type: self.mem_type@,
            extra_props: self.extra_props@,
        }
    }
}

/// The property name a slot's manufacturer string is stored under.
pub open spec fn key_manufacturer() -> Seq<char> {
    "MANUFACTURER"@
}

/// The property name a slot's configured speed is stored under.
pub open spec fn key_speed() -> Seq<char> {
    "CONFIGURED_SPEED_MTS"@
}

/// The property name a slot's form factor is stored under.
pub open spec fn key_form_factor() -> Seq<char> {
    "FORM_FACTOR"@
}

/// The property name a slot's raw type string is stored under.
pub open spec fn key_type() -> Seq<char> {
    "TYPE"@
}

/// The four lifted property names differ pairwise.
pub proof fn lemma_keys_distinct()
    ensures
        key_manufacturer() != key_speed(),
        key_manufacturer() != key_form_factor(),
        key_manufacturer() != key_type(),
        key_speed() != key_form_factor(),
        key_speed() != key_type(),
        key_form_factor() != key_type(),
{
    reveal_strlit("MANUFACTURER");
    reveal_strlit("CONFIGURED_SPEED_MTS");
    reveal_strlit("FORM_FACTOR");
    reveal_strlit("TYPE");
    assert(key_manufacturer().len() == 12);
    assert(key_speed().len() == 20);
    assert(key_form_factor().len() == 11);
    assert(key_type().len() == 4);
}

/// The record built from one per-slot mapping: the four named fields
/// are lifted out (absent or malformed data degrading to an absent
/// value, never an error), and everything else stays as extra
/// properties.
pub open spec fn built_device(m: Map<Seq<char>, Seq<char>>) -> MemDeviceView {
    MemDeviceView {
        manufacturer: if m.contains_key(key_manufacturer()) {
            Some(m[key_manufacturer()])
        } else {
            None
        },
        frequency: if m.contains_key(key_speed()) {
            crate::text::parsed_u64(m[key_speed()])
        } else {
            None
        },
        form_factor: if m.contains_key(key_form_factor()) {
            Some(m[key_form_factor()])
        } else {
            None
        },
        mem_type: if m.contains_key(key_type()) {
            classify(m[key_type()])
        } else {
            MemTypeView::Unknown
        },
        extra_props: m.remove(key_manufacturer()).remove(key_speed()).remove(
            key_form_factor(),
        ).remove(key_type()),
    }
}

impl MemDevice {
    /// Well-formed: the extra properties hold distinct keys.
    pub open spec fn wf(self) -> bool {
        self.extra_props.wf()
    }

    /// Builds the typed record for one per-slot mapping, as
    /// [`built_device`] describes.
    pub fn from_map(map: PropMap) -> (d: MemDevice)
        requires
            map.wf(),
        ensures
            d.wf(),
            d@ == built_device(map@),
    {
        proof {
            lemma_keys_distinct();
        }
        let mut extra_props = map;
        let manufacturer = extra_props.remove("MANUFACTURER");
        let frequency = match extra_props.remove("CONFIGURED_SPEED_MTS") {
            Some(x) => crate::text::parse_u64(x.as_str()),
            None => None,
        };
        let form_factor = extra_props.remove("FORM_FACTOR");
        let mem_type = match extra_props.remove("TYPE") {
            Some(v) => MemType::from(v),
            None => MemType::Unknown,
        };
        MemDevice { manufacturer, frequency, form_factor, mem_type, extra_props }
    }

    /// Builds the record for slot `index` from the whole-host mapping:
    /// the slot's subset is extracted and stripped, and the record is
    /// built from it. A slot with no matching keys yields a record
    /// whose every field is absent.
    pub fn new(index: usize, memmap: &PropMap) -> (d: MemDevice)
        requires
            memmap.wf(),
        ensures
            d.wf(),
            d@ == built_device(slot_view(memmap@, index as nat)),
    {
        let prefix = slot_prefix_string(index);
        let mut propmap = PropMap::new();
        let n = memmap.num_entries();
        let mut i: usize = 0;
        while i < n
            invariant
                0 <= i <= n,
                n == memmap.kv().len(),
                memmap.wf(),
                prefix@ == slot_prefix(index as nat),
                propmap.wf(),
                propmap@ == demux_of(memmap.kv().take(i as int), prefix@),
            decreases n - i,
        {
            let ghost kv = memmap.kv();
            match crate::text::strip_prefix_str(memmap.key_at(i).as_str(), prefix.as_str()) {
                Some(name) => {
                    let value = memmap.value_at(i).clone();
                    propmap.insert(name, value);
                },
                None => {},
            }
            proof {
                assert(kv.take(i + 1).drop_last() =~= kv.take(i as int));
                assert(kv.take(i + 1).last() == kv[i as int]);
            }
            i += 1;
        }
        proof {
            let kv = memmap.kv();
            let p = slot_prefix(index as nat);
            assert(kv.take(n as int) =~= kv);
            assert forall|q: Seq<char>| (#[trigger] propmap@.contains_key(q)) == slot_view(
                memmap@,
                index as nat,
            ).contains_key(q) && (propmap@.contains_key(q) ==> propmap@[q] == slot_view(
                memmap@,
                index as nat,
            )[q]) by {
                lemma_demux_of_map(kv, p, q);
            }
            assert(propmap@ =~= slot_view(memmap@, index as nat));
        }
        MemDevice::from_map(propmap)
    }
}

/// The property name holding the number of physical memory slots.
pub open spec fn count_key() -> Seq<char> {
    "MEMORY_ARRAY_NUM_DEVICES"@
}

/// The whole-host inventory: one record per physical slot, built once
/// from a single property snapshot and immutable thereafter.
#[derive(Debug, Clone, PartialEq, Eq)]
pub struct Memory {
    pub devices: Vec<MemDevice>,
}

impl View for Memory {
    type V = Seq<MemDeviceView>;

    open spec fn view(&self) -> Seq<MemDeviceView> {
        self.devices@.map_values(|d: MemDevice| d@)
    }
}

/// The device records a snapshot mapping determines: the count
/// property gives their number, and slot `i`'s record is built from
/// slot `i`'s stripped subset.
pub open spec fn built_memory(devs: Seq<MemDeviceView>, m: Map<Seq<char>, Seq<char>>) -> bool {
    &&& m.contains_key(count_key())
    &&& crate::text::parsed_usize(m[count_key()]) matches Some(n) && devs.len() == n
    &&& forall|i: int|
        0 <= i < devs.len() ==> #[trigger] devs[i] == built_device(slot_view(m, i as nat))
}

/// The configured frequencies of the devices that have one, in device
/// order.
pub open spec fn freqs_of(devs: Seq<MemDeviceView>) -> Seq<u64>
    decreases devs.len(),
{
    if devs.len() == 0 {
        Seq::empty()
    } else {
        freqs_of(devs.drop_last()) + (match devs.last().frequency {
            Some(f) => seq![f],
            None => Seq::<u64>::empty(),
        })
    }
}

/// The sum of a sequence of frequencies.
pub open spec fn sum_of(s: Seq<u64>) -> int
    decreases s.len(),
{
    if s.len() == 0 {
        0
    } else {
        sum_of(s.drop_last()) + s.last()
    }
}

/// The truncating arithmetic mean, zero for an empty sequence.
pub open spec fn avg_of(s: Seq<u64>) -> int {
    if s.len() == 0 {
        0
    } else {
        sum_of(s) / (s.len() as int)
    }
}

/// A sum only grows as more elements follow a prefix.
proof fn lemma_sum_prefix(s: Seq<u64>, j: int)
    requires
        0 <= j <= s.len(),
    ensures
        sum_of(s.take(j)) <= sum_of(s),
    decreases s.len() - j,
{
    if j < s.len() {
        assert(s.take(j + 1).drop_last() =~= s.take(j));
        lemma_sum_prefix(s, j + 1);
    } else {
        assert(s.take(j) =~= s);
    }
}

/// Sums the frequencies; the caller guarantees the sum fits.
pub fn sum_frequency(f: Vec<u64>) -> (r: u64)
    requires
        sum_of(f@) <= u64::MAX,
    ensures
        r == sum_of(f@),
{
    let mut sum: u64 = 0;
    let n = f.len();
    let mut i: usize = 0;
    while i < n
        invariant
            0 <= i <= n,
            n == f@.len(),
            sum == sum_of(f@.take(i as int)),
            sum_of(f@) <= u64::MAX,
        decreases n - i,
    {
        proof {
            assert(f@.take(i + 1).drop_last() =~= f@.take(i as int));
            assert(f@.take(i + 1).last() == f@[i as int]);
            lemma_sum_prefix(f@, i + 1);
        }
        sum = sum + f[i];
        i += 1;
    }
    proof {
        assert(f@.take(n as int) =~= f@);
    }
    sum
}

/// The truncating mean of the frequencies, as [`avg_of`] describes:
/// zero when there are none.
pub fn avg_frequency(f: Vec<u64>) -> (r: u64)
    ensures
        r == avg_of(f@),
{
    let count = f.len();
    if count == 0 {
        return 0;
    }
    let mut sum: u128 = 0;
    let mut i: usize = 0;
    while i < count
        invariant
            0 <= i <= count,
            count == f@.len(),
            sum == sum_of(f@.take(i as int)),
            sum <= (i as int) * (u64::MAX as int),
        decreases count - i,
    {
        proof {
            assert(f@.take(i + 1).drop_last() =~= f@.take(i as int));
            assert(f@.take(i + 1).last() == f@[i as int]);
            vstd::arithmetic::mul::lemma_mul_inequality(
                i + 1,
                0x1_0000_0000_0000_0000,
                u64::MAX as int,
            );
        }
        sum = sum + (f[i] as u128);
        i += 1;
    }
    proof {
        assert(f@.take(count as int) =~= f@);
        vstd::arithmetic::mul::lemma_mul_inequality(
            count as int,
            0x1_0000_0000_0000_0000,
            u64::MAX as int,
        );
        vstd::arithmetic::div_mod::lemma_div_is_ordered(
            sum as int,
            (count as int) * (u64::MAX as int),
            count as int,
        );
        vstd::arithmetic::div_mod::lemma_div_multiples_vanish(u64::MAX as int, count as int);
    }
    let avg = sum / (count as u128);
    avg as u64
}

impl Memory {
    /// Well-formed: every device record is.
    pub open spec fn wf(self) -> bool {
        forall|i: int| 0 <= i < self.devices@.len() ==> (#[trigger] self.devices@[i]).wf()
    }

    /// Builds the whole inventory from a property snapshot. The
    /// device-count property, looked up by its exact name, is
    /// authoritative: absent, the snapshot is rejected as `Missing`;
    /// present but not a valid unsigned integer, as `ParseInt`; zero
    /// yields an empty device list. Slots inside the count with no
    /// matching keys become empty records, and keys matching no slot
    /// are ignored.
    pub fn new(props: &PropMap) -> (r: Result<Memory, Error>)
        requires
            props.wf(),
        ensures
            match r {
                Ok(mem) => mem.wf() && built_memory(mem@, props@),
                Err(Error::Missing) => !props@.contains_key(count_key()),
                Err(Error::ParseInt) => props@.contains_key(count_key())
                    && crate::text::parsed_usize(props@[count_key()]) is None,
                Err(Error::Io) => false,
            },
    {
        let count = {
            let count_str = match props.get("MEMORY_ARRAY_NUM_DEVICES") {
                Some(v) => v,
                None => {
                    return Err(Error::Missing);
                },
            };
            match crate::text::parse_usize(count_str.as_str()) {
                Some(c) => c,
                None => {
                    return Err(Error::ParseInt);
                },
            }
        };
        let mut devices: Vec<MemDevice> = Vec::new();
        let mut i: usize = 0;
        while i < count
            invariant
                0 <= i <= count,
                props.wf(),
                devices@.len() == i,
                forall|j: int|
                    0 <= j < i ==> (#[trigger] devices@[j]).wf() && devices@[j]@ == built_device(
                        slot_view(props@, j as nat),
                    ),
            decreases count - i,
        {
            let d = MemDevice::new(i, props);
            devices.push(d);
            i += 1;
        }
        Ok(Memory { devices })
    }

    /// The truncating mean over the devices that report a frequency,
    /// zero when none does.
    pub fn avg_frequency(&self) -> (r: u64)
        ensures
            r == avg_of(freqs_of(self@)),
    {
        let mut v: Vec<u64> = Vec::new();
        let n = self.devices.len();
        let mut i: usize = 0;
        while i < n
            invariant
                0 <= i <= n,
                n == self.devices@.len(),
                n == self@.len(),
                v@ == freqs_of(self@.take(i as int)),
            decreases n - i,
        {
            proof {
                assert(self@.take(i + 1).drop_last() =~= self@.take(i as int));
                assert(self@.take(i + 1).last() == self@[i as int]);
                assert(self@[i as int] == self.devices@[i as int]@);
            }
            match self.devices[i].frequency {
                Some(fr) => {
                    v.push(fr);
                    proof {
                        assert(v@ =~= freqs_of(self@.take(i as int)) + seq![fr]);
                    }
                },
                None => {},
            }
            i += 1;
        }
        proof {
            assert(self@.take(n as int) =~= self@);
        }
        avg_frequency(v)
    }
}

/// The rendered types of the devices, in device order.
pub open spec fn types_of(devs: Seq<MemDeviceView>) -> Seq<Seq<char>>
    decreases devs.len(),
{
    if devs.len() == 0 {
        Seq::empty()
    } else {
        types_of(devs.drop_last()).push(render_type(devs.last().mem_type))
    }
}

/// The form factors of the devices that report one, in device order.
pub open spec fn ffs_of(devs: Seq<MemDeviceView>) -> Seq<Seq<char>>
    decreases devs.len(),
{
    if devs.len() == 0 {
        Seq::empty()
    } else {
        ffs_of(devs.drop_last()) + (match devs.last().form_factor {
            Some(s) => seq![s],
            None => Seq::<Seq<char>>::empty(),
        })
    }
}

/// First-occurrence deduplication: one entry per distinct value, in
/// the order each value first appears.
pub open spec fn dedup(s: Seq<Seq<char>>) -> Seq<Seq<char>>
    decreases s.len(),
{
    if s.len() == 0 {
        Seq::empty()
    } else {
        let d = dedup(s.drop_last());
        if d.contains(s.last()) {
            d
        } else {
            d.push(s.last())
        }
    }
}

/// Deduplication keeps membership and produces pairwise-distinct
/// entries: exactly one entry per distinct value of the input.
pub proof fn lemma_dedup_exact(s: Seq<Seq<char>>)
    ensures
        forall|x: Seq<char>| #[trigger] dedup(s).contains(x) <==> s.contains(x),
        forall|i: int, j: int| 0 <= i < j < dedup(s).len() ==> dedup(s)[i] != dedup(s)[j],
    decreases s.len(),
{
    if s.len() > 0 {
        lemma_dedup_exact(s.drop_last());
        let d = dedup(s.drop_last());
        let e = s.last();
        assert forall|x: Seq<char>| #[trigger] dedup(s).contains(x) implies s.contains(x) by {
            if d.contains(x) || x == e {
                if x == e {
                    assert(s[s.len() - 1] == x);
                } else {
                    let k = choose|k: int| 0 <= k < s.drop_last().len() && s.drop_last()[k] == x;
                    assert(s[k] == x);
                }
            } else {
                let k = choose|k: int| 0 <= k < dedup(s).len() && dedup(s)[k] == x;
                assert(d.push(e)[k] == x);
                assert(d.contains(x) || x == e);
            }
        }
        assert forall|x: Seq<char>| #[trigger] s.contains(x) implies dedup(s).contains(x) by {
            let k = choose|k: int| 0 <= k < s.len() && s[k] == x;
            if k < s.len() - 1 {
                assert(s.drop_last()[k] == x);
                assert(d.contains(x));
                if !d.contains(e) {
                    let m = choose|m: int| 0 <= m < d.len() && d[m] == x;
                    assert(d.push(e)[m] == x);
                }
            } else {
                if d.contains(x) {
                    if !d.contains(e) {
                        let m = choose|m: int| 0 <= m < d.len() && d[m] == x;
                        assert(d.push(e)[m] == x);
                    }
                } else {
                    assert(d.push(e)[d.len() as int] == x);
                }
            }
        }
        if !d.contains(e) {
            assert forall|i: int, j: int| 0 <= i < j < dedup(s).len() implies dedup(s)[i]
                != dedup(s)[j] by {
                if j < d.len() {
                } else {
                    assert(dedup(s)[j] == e);
                    assert(d.contains(dedup(s)[i]) ==> dedup(s)[i] != e);
                    assert(d[i] == dedup(s)[i]);
                }
            }
        }
    }
}

/// Whether some element of `v` holds the characters of `s`.
fn vec_contains_str(v: &Vec<String>, s: &str) -> (b: bool)
    ensures
        b == v.deep_view().contains(s@),
{
    let n = v.len();
    let mut i: usize = 0;
    while i < n
        invariant
            0 <= i <= n,
            n == v@.len(),
            forall|j: int| 0 <= j < i ==> v.deep_view()[j] != s@,
        decreases n - i,
    {
        if crate::text::str_eq(v[i].as_str(), s) {
            assert(v.deep_view()[i as int] == s@);
            return true;
        }
        i += 1;
    }
    false
}

/// Two-decimal fixed-point rendering of a value given in hundredths.
pub open spec fn two_dec(h: nat) -> Seq<char> {
    crate::text::dec_str(h / 100) + "."@ + (if h % 100 < 10 {
        "0"@ + crate::text::dec_str(h % 100)
    } else {
        crate::text::dec_str(h % 100)
    })
}

/// The list joined by `sep`, with no leading or trailing separator.
pub open spec fn joined(l: Seq<Seq<char>>, sep: Seq<char>) -> Seq<char>
    decreases l.len(),
{
    if l.len() == 0 {
        Seq::empty()
    } else if l.len() == 1 {
        l[0]
    } else {
        joined(l.drop_last(), sep) + sep + l.last()
    }
}

/// The composite summary line: `used.2f<unit> / total.2f<unit>`,
/// then the distinct type list, then the distinct form-factor list in
/// parentheses, then the nonzero average frequency; each optional
/// segment is omitted entirely when its source is empty or zero.
pub open spec fn display_of(
    devs: Seq<MemDeviceView>,
    used_hundredths: nat,
    total_hundredths: nat,
    unit: Seq<char>,
) -> Seq<char> {
    let base = two_dec(used_hundredths) + unit + " / "@ + two_dec(total_hundredths) + unit;
    let tl = dedup(types_of(devs));
    let fl = dedup(ffs_of(devs));
    let a = avg_of(freqs_of(devs));
    let with_types = if tl.len() > 0 {
        base + " "@ + joined(tl, ", "@)
    } else {
        base
    };
    let with_ffs = if fl.len() > 0 {
        with_types + " ("@ + joined(fl, ", "@) + ")"@
    } else {
        with_types
    };
    if a != 0 {
        with_ffs + " @ "@ + crate::text::dec_str(a as nat) + " MHz"@
    } else {
        with_ffs
    }
}

/// Renders `h` hundredths with two decimal places.
fn format_two_dec(h: u64) -> (r: String)
    ensures
        r@ == two_dec(h as nat),
{
    let mut r = crate::text::u64_to_string(h / 100);
    r.append(".");
    if h % 100 < 10 {
        r.append("0");
    }
    let fs = crate::text::u64_to_string(h % 100);
    r.append(fs.as_str());
    proof {
        assert(r@ =~= two_dec(h as nat));
    }
    r
}

/// Joins the strings of `v` with a comma and a space.
fn join_list(v: &Vec<String>) -> (r: String)
    ensures
        r@ == joined(v.deep_view(), ", "@),
{
    let mut r = String::new();
    let n = v.len();
    let mut i: usize = 0;
    while i < n
        invariant
            0 <= i <= n,
            n == v@.len(),
            r@ == joined(v.deep_view().take(i as int), ", "@),
        decreases n - i,
    {
        if i > 0 {
            r.append(", ");
        }
        r.append(v[i].as_str());
        proof {
            let d = v.deep_view();
            assert(d.take(i + 1).drop_last() =~= d.take(i as int));
            assert(d.take(i + 1).last() == d[i as int]);
            assert(d[i as int] == v@[i as int]@);
            if i == 0 {
                assert(r@ =~= joined(d.take(1), ", "@));
            } else {
                assert(r@ =~= joined(d.take(i + 1), ", "@));
            }
        }
        i += 1;
    }
    proof {
        assert(v.deep_view().take(n as int) =~= v.deep_view());
    }
    r
}

impl Memory {
    /// The distinct rendered memory types, each exactly once, the
    /// first occurrence fixing the order.
    pub fn mem_types(&self) -> (r: Vec<String>)
        ensures
            r.deep_view() == dedup(types_of(self@)),
    {
        let mut r: Vec<String> = Vec::new();
        let n = self.devices.len();
        let mut i: usize = 0;
        while i < n
            invariant
                0 <= i <= n,
                n == self.devices@.len(),
                n == self@.len(),
                r.deep_view() == dedup(types_of(self@.take(i as int))),
            decreases n - i,
        {
            proof {
                assert(self@.take(i + 1).drop_last() =~= self@.take(i as int));
                assert(self@.take(i + 1).last() == self@[i as int]);
                assert(self@[i as int] == self.devices@[i as int]@);
            }
            let s = self.devices[i].mem_type.render();
            proof {
                let ts = types_of(self@.take(i + 1));
                assert(ts == types_of(self@.take(i as int)).push(s@));
                assert(ts.drop_last() =~= types_of(self@.take(i as int)));
                assert(ts.last() == s@);
            }
            if !vec_contains_str(&r, s.as_str()) {
                let ghost d0 = r.deep_view();
                r.push(s);
                proof {
                    assert(r.deep_view() =~= d0.push(s@));
                }
            }
            i += 1;
        }
        proof {
            assert(self@.take(n as int) =~= self@);
        }
        r
    }

    /// The distinct form factors among the devices that report one,
    /// each exactly once, the first occurrence fixing the order.
    pub fn form_factors(&self) -> (r: Vec<String>)
        ensures
            r.deep_view() == dedup(ffs_of(self@)),
    {
        let mut r: Vec<String> = Vec::new();
        let n = self.devices.len();
        let mut i: usize = 0;
        while i < n
            invariant
                0 <= i <= n,
                n == self.devices@.len(),
                n == self@.len(),
                r.deep_view() == dedup(ffs_of(self@.take(i as int))),
            decreases n - i,
        {
            proof {
                assert(self@.take(i + 1).drop_last() =~= self@.take(i as int));
                assert(self@.take(i + 1).last() == self@[i as int]);
                assert(self@[i as int] == self.devices@[i as int]@);
            }
            match &self.devices[i].form_factor {
                Some(ff) => {
                    let s = ff.clone();
                    assert(s@ == self@[i as int].form_factor.unwrap());
                    proof {
                        let fs = ffs_of(self@.take(i + 1));
                        assert(fs =~= ffs_of(self@.take(i as int)).push(s@));
                        assert(fs.drop_last() =~= ffs_of(self@.take(i as int)));
                        assert(fs.last() == s@);
                    }
                    if !vec_contains_str(&r, s.as_str()) {
                        let ghost d0 = r.deep_view();
                        r.push(s);
                        proof {
                            assert(r.deep_view() =~= d0.push(s@));
                        }
                    }
                },
                None => {
                    proof {
                        assert(ffs_of(self@.take(i + 1)) =~= ffs_of(self@.take(i as int)));
                    }
                },
            }
            i += 1;
        }
        proof {
            assert(self@.take(n as int) =~= self@);
        }
        r
    }

    /// The composite summary line, as [`display_of`] describes:
    /// `used` and `total` are supplied by the caller in hundredths of
    /// `unit`.
    pub fn display_unit(&self, used_hundredths: u64, total_hundredths: u64, unit: &str) -> (r:
        String)
        ensures
            r@ == display_of(self@, used_hundredths as nat, total_hundredths as nat, unit@),
    {
        let mut r = format_two_dec(used_hundredths);
        r.append(unit);
        r.append(" / ");
        let t = format_two_dec(total_hundredths);
        r.append(t.as_str());
        r.append(unit);
        let tl = self.mem_types();
        if tl.len() > 0 {
            r.append(" ");
            let j = join_list(&tl);
            r.append(j.as_str());
        }
        let fl = self.form_factors();
        if fl.len() > 0 {
            r.append(" (");
            let j = join_list(&fl);
            r.append(j.as_str());
            r.append(")");
        }
        let a = self.avg_frequency();
        if a != 0 {
            r.append(" @ ");
            let astr = crate::text::u64_to_string(a);
            r.append(astr.as_str());
            r.append(" MHz");
        }
        proof {
            assert(r@ =~= display_of(
                self@,
                used_hundredths as nat,
                total_hundredths as nat,
                unit@,
            ));
        }
        r
    }
}

/// The per-slot subset holds a stripped key exactly when the raw
/// mapping holds the prefixed key, with the value unchanged: nothing
/// else gets in.
pub proof fn lemma_slot_subset_exact(m: Map<Seq<char>, Seq<char>>, i: nat, k: Seq<char>)
    ensures
        slot_view(m, i).contains_key(k) <==> m.contains_key(slot_prefix(i) + k),
        slot_view(m, i).contains_key(k) ==> slot_view(m, i)[k] == m[slot_prefix(i) + k],
{
}

/// Every key of the raw mapping that starts with slot `i`'s prefix
/// reaches the per-slot subset, under its stripped name and with its
/// value verbatim.
pub proof fn lemma_slot_subset_covers(m: Map<Seq<char>, Seq<char>>, i: nat, key: Seq<char>)
    requires
        m.contains_key(key),
        crate::text::is_prefix(slot_prefix(i), key),
    ensures
        slot_view(m, i).contains_key(key.subrange(slot_prefix(i).len() as int, key.len() as int)),
        slot_view(m, i)[key.subrange(slot_prefix(i).len() as int, key.len() as int)] == m[key],
{
    assert(key =~= slot_prefix(i) + key.subrange(slot_prefix(i).len() as int, key.len() as int));
}

/// The manufacturer and form-factor fields hold the raw string under
/// their source key verbatim when it is present, and are absent
/// exactly when it is absent.
pub proof fn lemma_named_fields_verbatim(m: Map<Seq<char>, Seq<char>>)
    ensures
        built_device(m).manufacturer == (if m.contains_key(key_manufacturer()) {
            Some(m[key_manufacturer()])
        } else {
            None::<Seq<char>>
        }),
        built_device(m).form_factor == (if m.contains_key(key_form_factor()) {
            Some(m[key_form_factor()])
        } else {
            None::<Seq<char>>
        }),
{
}

/// The extra properties are the input mapping minus the four lifted
/// keys: disjoint from those keys, and verbatim on all the others.
pub proof fn lemma_extra_props_exact(m: Map<Seq<char>, Seq<char>>)
    ensures
        !built_device(m).extra_props.contains_key(key_manufacturer()),
        !built_device(m).extra_props.contains_key(key_speed()),
        !built_device(m).extra_props.contains_key(key_form_factor()),
        !built_device(m).extra_props.contains_key(key_type()),
        forall|k: Seq<char>|
            #[trigger] built_device(m).extra_props.contains_key(k) <==> (m.contains_key(k) && k
                != key_manufacturer() && k != key_speed() && k != key_form_factor() && k
                != key_type()),
        forall|k: Seq<char>|
            #[trigger] built_device(m).extra_props.contains_key(k) ==> built_device(
                m,
            ).extra_props[k] == m[k],
{
}

/// Building an inventory from the same snapshot mapping twice yields
/// field-for-field identical device records.
pub proof fn lemma_snapshot_deterministic(
    d1: Seq<MemDeviceView>,
    d2: Seq<MemDeviceView>,
    m: Map<Seq<char>, Seq<char>>,
)
    requires
        built_memory(d1, m),
        built_memory(d2, m),
    ensures
        d1 == d2,
{
    assert(d1 =~= d2);
}

/// The prefix string for slot `index`'s property names.
fn slot_prefix_string(index: usize) -> (r: String)
    ensures
        r@ == slot_prefix(index as nat),
{
    let mut r = "MEMORY_DEVICE_".to_owned();
    let num = crate::text::u64_to_string(index as u64);
    r.append(num.as_str());
    r.append("_");
    proof {
        assert(r@ =~= slot_prefix(index as nat));
    }
    r
}

} // verus!
