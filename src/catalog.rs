use vstd::prelude::*;

verus! {

/// A hardware sample representation.
#[derive(Clone, Copy, Debug, PartialEq, Eq, Structural)]
pub enum SampleFormat {
    I16,
    U16,
    F32,
}

/// What a device offers at its best supported configuration.
#[derive(Clone, Copy, Debug, PartialEq, Eq, Structural)]
pub struct DeviceInfo {
    pub sample_rate: u32,
    pub channels: u32,
    pub sample_format: SampleFormat,
}

/// One range of configurations that a device supports.
#[derive(Clone, Copy, Debug, PartialEq, Eq, Structural)]
pub struct ConfigRange {
    pub channels: u16,
    pub min_sample_rate: u32,
    pub max_sample_rate: u32,
    pub sample_format: SampleFormat,
}

/// A device as the host lists it: its name and its supported configurations.
pub struct DeviceReport {
    pub name: String,
    pub configs: Vec<ConfigRange>,
}

/// Why a device listing could not be turned into a catalog.
#[derive(Clone, Copy, Debug, PartialEq, Eq, Structural)]
pub enum DeviceQueryError {
    /// The host could not list its devices or their configurations.
    Host,
    /// A device offers no configuration at all.
    NoSupportedConfig,
}

/// A configuration range taken at its highest sample rate.
pub open spec fn config_info(c: ConfigRange) -> DeviceInfo {
    DeviceInfo {
        sample_rate: c.max_sample_rate,
        channels: c.channels as u32,
        sample_format: c.sample_format,
    }
}

/// `i` is the first of the ranges with the highest sample rate.
pub open spec fn is_best(cs: Seq<ConfigRange>, i: int) -> bool {
    &&& 0 <= i < cs.len()
    &&& forall|j: int| 0 <= j < cs.len() ==> #[trigger] cs[j].max_sample_rate <= cs[i].max_sample_rate
    &&& forall|j: int| 0 <= j < i ==> #[trigger] cs[j].max_sample_rate < cs[i].max_sample_rate
}

/// The best configuration of a device that offers at least one.
pub open spec fn best_info(cs: Seq<ConfigRange>) -> DeviceInfo {
    config_info(cs[choose|i: int| is_best(cs, i)])
}

proof fn lemma_best_unique(cs: Seq<ConfigRange>, i: int, j: int)
    requires
        is_best(cs, i),
        is_best(cs, j),
    ensures
        i == j,
{
    if i < j {
        assert(cs[i].max_sample_rate < cs[j].max_sample_rate);
    } else if j < i {
        assert(cs[j].max_sample_rate < cs[i].max_sample_rate);
    }
}

/// Selects, among the supported ranges, the first with the highest sample
/// rate, taken at that rate; `None` when there is no range.
pub fn best_config(configs: &Vec<ConfigRange>) -> (r: Option<DeviceInfo>)
    ensures
        r == if configs@.len() == 0 {
            None
        } else {
            Some(best_info(configs@))
        },
{
    if configs.len() == 0 {
        return None;
    }
    let mut best: usize = 0;
    let mut i: usize = 1;
    while i < configs.len()
        invariant
            1 <= i <= configs@.len(),
            best < i,
            forall|j: int| 0 <= j < i ==> #[trigger] configs@[j].max_sample_rate
                <= configs@[best as int].max_sample_rate,
            forall|j: int| 0 <= j < best ==> #[trigger] configs@[j].max_sample_rate
                < configs@[best as int].max_sample_rate,
        decreases configs@.len() - i,
    {
        if configs[i].max_sample_rate > configs[best].max_sample_rate {
            best = i;
        }
        i = i + 1;
    }
    proof {
        assert(is_best(configs@, best as int));
        let k = choose|k: int| is_best(configs@, k);
        lemma_best_unique(configs@, k, best as int);
    }
    let c = configs[best];
    Some(DeviceInfo {
        sample_rate: c.max_sample_rate,
        channels: c.channels as u32,
        sample_format: c.sample_format,
    })
}

/// The table that results from inserting each pair in order, a later pair
/// replacing an earlier one of the same name.
pub open spec fn table_of(ps: Seq<(Seq<char>, DeviceInfo)>) -> Map<Seq<char>, DeviceInfo>
    decreases ps.len(),
{
    if ps.len() == 0 {
        Map::empty()
    } else {
        table_of(ps.drop_last()).insert(ps.last().0, ps.last().1)
    }
}

pub open spec fn pairs_unique(ps: Seq<(Seq<char>, DeviceInfo)>) -> bool {
    forall|i: int, j: int| 0 <= i < j < ps.len() ==> #[trigger] ps[i].0 != #[trigger] ps[j].0
}

/// With names unique, the table holds exactly the pairs.
proof fn lemma_table_of_unique(ps: Seq<(Seq<char>, DeviceInfo)>)
    requires
        pairs_unique(ps),
    ensures
        forall|n: Seq<char>|
            #[trigger] table_of(ps).contains_key(n) <==> exists|i: int|
                0 <= i < ps.len() && #[trigger] ps[i].0 == n,
        forall|i: int| 0 <= i < ps.len() ==> #[trigger] table_of(ps)[ps[i].0] == ps[i].1,
    decreases ps.len(),
{
    if ps.len() > 0 {
        let rest = ps.drop_last();
        assert(pairs_unique(rest)) by {
            assert forall|i: int, j: int| 0 <= i < j < rest.len() implies #[trigger] rest[i].0
                != #[trigger] rest[j].0 by {
                assert(rest[i] == ps[i] && rest[j] == ps[j]);
            }
        }
        lemma_table_of_unique(rest);
        assert forall|n: Seq<char>| #[trigger] table_of(ps).contains_key(n) <==> exists|i: int|
            0 <= i < ps.len() && #[trigger] ps[i].0 == n by {
            if table_of(rest).contains_key(n) {
                let i = choose|i: int| 0 <= i < rest.len() && #[trigger] rest[i].0 == n;
                assert(ps[i].0 == n);
            }
            if exists|i: int| 0 <= i < ps.len() && #[trigger] ps[i].0 == n {
                let i = choose|i: int| 0 <= i < ps.len() && #[trigger] ps[i].0 == n;
                if i < ps.len() - 1 {
                    assert(rest[i].0 == n);
                }
            }
        }
        assert forall|i: int| 0 <= i < ps.len() implies #[trigger] table_of(ps)[ps[i].0]
            == ps[i].1 by {
            if i < ps.len() - 1 {
                assert(ps[i].0 != ps[ps.len() - 1].0);
                assert(rest[i] == ps[i]);
                assert(table_of(rest)[rest[i].0] == rest[i].1);
                assert(table_of(rest).contains_key(rest[i].0));
            }
        }
    }
}

/// One named entry of a device table.
pub struct DeviceEntry {
    pub name: String,
    pub info: DeviceInfo,
}

/// Devices by name, each with its best configuration.
pub struct DeviceTable {
    pub entries: Vec<DeviceEntry>,
}

impl DeviceTable {
    pub open spec fn pairs(&self) -> Seq<(Seq<char>, DeviceInfo)> {
        self.entries@.map_values(|e: DeviceEntry| (e.name@, e.info))
    }

    /// No name occurs twice.
    pub open spec fn wf(&self) -> bool {
        pairs_unique(self.pairs())
    }
}

impl View for DeviceTable {
    type V = Map<Seq<char>, DeviceInfo>;

    open spec fn view(&self) -> Map<Seq<char>, DeviceInfo> {
        table_of(self.pairs())
    }
}

impl DeviceTable {
    pub fn new() -> (r: DeviceTable)
        ensures
            r.wf(),
            r@ == Map::<Seq<char>, DeviceInfo>::empty(),
    {
        let r = DeviceTable { entries: Vec::new() };
        assert(r.pairs() =~= Seq::<(Seq<char>, DeviceInfo)>::empty());
        r
    }

    fn find(&self, name: &String) -> (r: Option<usize>)
        requires
            self.wf(),
        ensures
            match r {
                Some(i) => i < self.entries@.len() && self.pairs()[i as int].0 == name@,
                None => !self@.contains_key(name@),
            },
    {
        proof {
            lemma_table_of_unique(self.pairs());
        }
        let mut i: usize = 0;
        while i < self.entries.len()
            invariant
                i <= self.entries@.len(),
                forall|j: int| 0 <= j < i ==> #[trigger] self.pairs()[j].0 != name@,
            decreases self.entries@.len() - i,
        {
            if self.entries[i].name == *name {
                return Some(i);
            }
            i = i + 1;
        }
        None
    }

    /// Whether a device of that name is listed.
    pub fn contains(&self, name: &String) -> (r: bool)
        requires
            self.wf(),
        ensures
            r == self@.contains_key(name@),
    {
        proof {
            lemma_table_of_unique(self.pairs());
        }
        self.find(name).is_some()
    }

    /// The device of that name, if it is listed.
    pub fn get(&self, name: &String) -> (r: Option<DeviceInfo>)
        requires
            self.wf(),
        ensures
            r == if self@.contains_key(name@) {
                Some(self@[name@])
            } else {
                None
            },
    {
        proof {
            lemma_table_of_unique(self.pairs());
        }
        match self.find(name) {
            Some(i) => Some(self.entries[i].info),
            None => None,
        }
    }

    /// Lists a device, replacing any listed under the same name.
    pub fn insert(&mut self, name: String, info: DeviceInfo)
        requires
            old(self).wf(),
        ensures
            final(self).wf(),
            final(self)@ == old(self)@.insert(name@, info),
    {
        let ghost old_pairs = self.pairs();
        proof {
            lemma_table_of_unique(old_pairs);
        }
        match self.find(&name) {
            Some(i) => {
                let ghost n = name@;
                self.entries.set(i, DeviceEntry { name, info });
                let ghost new_pairs = self.pairs();
                assert(new_pairs =~= old_pairs.update(i as int, (n, info)));
                assert(pairs_unique(new_pairs));
                proof {
                    lemma_table_of_unique(new_pairs);
                }
                assert forall|k: Seq<char>| #[trigger] table_of(new_pairs).contains_key(k)
                    == table_of(old_pairs).contains_key(k) by {
                    if table_of(new_pairs).contains_key(k) {
                        let j = choose|j: int| 0 <= j < new_pairs.len() && #[trigger] new_pairs[j].0 == k;
                        assert(old_pairs[j].0 == k);
                    }
                    if table_of(old_pairs).contains_key(k) {
                        let j = choose|j: int| 0 <= j < old_pairs.len() && #[trigger] old_pairs[j].0 == k;
                        assert(new_pairs[j].0 == k);
                    }
                }
                assert forall|k: Seq<char>| #[trigger] table_of(new_pairs).contains_key(k) implies
                    table_of(new_pairs)[k] == table_of(old_pairs).insert(n, info)[k] by {
                    let j = choose|j: int| 0 <= j < new_pairs.len() && #[trigger] new_pairs[j].0 == k;
                    assert(table_of(new_pairs)[new_pairs[j].0] == new_pairs[j].1);
                    if j != i {
                        assert(table_of(old_pairs)[old_pairs[j].0] == old_pairs[j].1);
                    }
                }
                assert(self@ =~= old(self)@.insert(name@, info));
            },
            None => {
                let ghost n = name@;
                self.entries.push(DeviceEntry { name, info });
                let ghost new_pairs = self.pairs();
                assert(new_pairs =~= old_pairs.push((n, info)));
                assert(new_pairs.drop_last() =~= old_pairs);
                assert forall|a: int, b: int| 0 <= a < b < new_pairs.len() implies
                    #[trigger] new_pairs[a].0 != #[trigger] new_pairs[b].0 by {
                    if b == new_pairs.len() - 1 {
                        assert(table_of(old_pairs).contains_key(old_pairs[a].0));
                    }
                }
            },
        }
    }
}

/// A listed device's name and its best configuration.
pub open spec fn report_pair(r: DeviceReport) -> (Seq<char>, DeviceInfo) {
    (r.name@, best_info(r.configs@))
}

/// The catalog that a listing of devices gives.
pub open spec fn catalog_of(rs: Seq<DeviceReport>) -> Map<Seq<char>, DeviceInfo> {
    table_of(rs.map_values(|r: DeviceReport| report_pair(r)))
}

/// Every listed device offers at least one configuration.
pub open spec fn all_configured(rs: Seq<DeviceReport>) -> bool {
    forall|i: int| 0 <= i < rs.len() ==> #[trigger] rs[i].configs@.len() > 0
}

/// No two listed devices share a name.
pub open spec fn names_unique(rs: Seq<DeviceReport>) -> bool {
    forall|i: int, j: int| 0 <= i < j < rs.len() ==> #[trigger] rs[i].name@ != #[trigger] rs[j].name@
}

impl DeviceTable {
    /// Builds the table of a device listing: each device under its name with
    /// its best configuration, a later device replacing an earlier one of the
    /// same name. Fails when some device offers no configuration.
    pub fn from_reports(reports: &Vec<DeviceReport>) -> (r: Result<DeviceTable, DeviceQueryError>)
        ensures
            match r {
                Ok(t) => all_configured(reports@) && t.wf() && t@ == catalog_of(reports@),
                Err(e) => !all_configured(reports@) && e == DeviceQueryError::NoSupportedConfig,
            },
    {
        let mut t = DeviceTable::new();
        let mut i: usize = 0;
        proof {
            assert(reports@.take(0).map_values(|r: DeviceReport| report_pair(r)) =~= Seq::<
                (Seq<char>, DeviceInfo),
            >::empty());
        }
        while i < reports.len()
            invariant
                i <= reports@.len(),
                t.wf(),
                t@ == catalog_of(reports@.take(i as int)),
                forall|j: int| 0 <= j < i ==> #[trigger] reports@[j].configs@.len() > 0,
            decreases reports@.len() - i,
        {
            let report = &reports[i];
            match best_config(&report.configs) {
                None => {
                    return Err(DeviceQueryError::NoSupportedConfig);
                },
                Some(info) => {
                    t.insert(report.name.clone(), info);
                    proof {
                        let next = reports@.take(i + 1).map_values(|r: DeviceReport| report_pair(r));
                        assert(next.drop_last() =~= reports@.take(i as int).map_values(
                            |r: DeviceReport| report_pair(r),
                        ));
                        assert(next.last() == report_pair(reports@[i as int]));
                    }
                    i = i + 1;
                },
            }
        }
        assert(reports@.take(i as int) =~= reports@);
        Ok(t)
    }
}

/// The input and output devices of the host.
pub struct AudioDevices {
    pub input_devices: DeviceTable,
    pub output_devices: DeviceTable,
}

impl AudioDevices {
    pub open spec fn wf(&self) -> bool {
        self.input_devices.wf() && self.output_devices.wf()
    }

    /// A catalog that lists no device.
    pub fn new() -> (r: AudioDevices)
        ensures
            r.wf(),
            r.input_devices@ == Map::<Seq<char>, DeviceInfo>::empty(),
            r.output_devices@ == Map::<Seq<char>, DeviceInfo>::empty(),
    {
        AudioDevices { input_devices: DeviceTable::new(), output_devices: DeviceTable::new() }
    }

    /// The catalog of the host's input and output device listings.
    pub fn enumerate(inputs: &Vec<DeviceReport>, outputs: &Vec<DeviceReport>) -> (r: Result<
        AudioDevices,
        DeviceQueryError,
    >)
        ensures
            match r {
                Ok(d) => all_configured(inputs@) && all_configured(outputs@) && d.wf()
                    && d.input_devices@ == catalog_of(inputs@) && d.output_devices@ == catalog_of(
                    outputs@,
                ),
                Err(e) => !(all_configured(inputs@) && all_configured(outputs@)) && e
                    == DeviceQueryError::NoSupportedConfig,
            },
    {
        let input_devices = match DeviceTable::from_reports(inputs) {
            Ok(t) => t,
            Err(e) => return Err(e),
        };
        let output_devices = match DeviceTable::from_reports(outputs) {
            Ok(t) => t,
            Err(e) => return Err(e),
        };
        Ok(AudioDevices { input_devices, output_devices })
    }
}

/// Two listings of the same devices, with names unique, in whatever order,
/// give the same catalog: the same names, each with the same best
/// configuration.
pub proof fn lemma_catalog_order_free(a: Seq<DeviceReport>, b: Seq<DeviceReport>)
    requires
        names_unique(a),
        names_unique(b),
        a.to_set() == b.to_set(),
    ensures
        catalog_of(a) == catalog_of(b),
{
    let pa = a.map_values(|r: DeviceReport| report_pair(r));
    let pb = b.map_values(|r: DeviceReport| report_pair(r));
    assert(pairs_unique(pa)) by {
        assert forall|i: int, j: int| 0 <= i < j < pa.len() implies #[trigger] pa[i].0
            != #[trigger] pa[j].0 by {
            assert(a[i].name@ != a[j].name@);
        }
    }
    assert(pairs_unique(pb)) by {
        assert forall|i: int, j: int| 0 <= i < j < pb.len() implies #[trigger] pb[i].0
            != #[trigger] pb[j].0 by {
            assert(b[i].name@ != b[j].name@);
        }
    }
    lemma_table_of_unique(pa);
    lemma_table_of_unique(pb);
    assert forall|n: Seq<char>| #[trigger] table_of(pa).contains_key(n) == table_of(pb).contains_key(n) by {
        if table_of(pa).contains_key(n) {
            let i = choose|i: int| 0 <= i < pa.len() && #[trigger] pa[i].0 == n;
            assert(a.to_set().contains(a[i]));
            assert(b.contains(a[i]));
            let j = choose|j: int| 0 <= j < b.len() && #[trigger] b[j] == a[i];
            assert(pb[j].0 == n);
        }
        if table_of(pb).contains_key(n) {
            let j = choose|j: int| 0 <= j < pb.len() && #[trigger] pb[j].0 == n;
            assert(b.to_set().contains(b[j]));
            assert(a.contains(b[j]));
            let i = choose|i: int| 0 <= i < a.len() && #[trigger] a[i] == b[j];
            assert(pa[i].0 == n);
        }
    }
    assert forall|n: Seq<char>| #[trigger] table_of(pa).contains_key(n) implies table_of(pa)[n]
        == table_of(pb)[n] by {
        let i = choose|i: int| 0 <= i < pa.len() && #[trigger] pa[i].0 == n;
        assert(a.to_set().contains(a[i]));
        assert(b.contains(a[i]));
        let j = choose|j: int| 0 <= j < b.len() && #[trigger] b[j] == a[i];
        assert(table_of(pa)[pa[i].0] == pa[i].1);
        assert(table_of(pb)[pb[j].0] == pb[j].1);
    }
    assert(table_of(pa) =~= table_of(pb));
}

} // verus!
