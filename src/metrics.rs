use vstd::prelude::*;

use crate::data::{ScenInfo, Solarbank, Statistic};

verus! {

/// The gauges that a site's telemetry is projected into.
#[derive(Clone, Copy, Debug, PartialEq, Eq, Structural)]
pub enum Metric {
    HomeLoadPower,
    OtherLoadsPower,
    GridToHomePower,
    PhotovoltaicToGridPower,
    HomeChargingPower,
    PhotovoltaicPower1,
    PhotovoltaicPower2,
    PhotovoltaicPower3,
    PhotovoltaicPower4,
    BatteryPower,
    BatteryPercent,
    ChargingPower,
    OutputPower,
    PhotovoltaicPower,
    StatisticPower,
    StatisticCo2,
    StatisticMoney,
}

impl Metric {
    /// The name under which the gauge is exported.
    pub fn name(&self) -> (r: &'static str)
        ensures
            *self == Metric::HomeLoadPower ==> r@ == "anker_solix_home_load_power"@,
            *self == Metric::OtherLoadsPower ==> r@ == "anker_solix_other_loads_power"@,
            *self == Metric::GridToHomePower ==> r@ == "anker_solix_grid_to_home_power"@,
            *self == Metric::PhotovoltaicToGridPower ==> r@ == "anker_solix_photovoltaic_to_grid_power"@,
            *self == Metric::HomeChargingPower ==> r@ == "anker_solix_home_charging_power"@,
            *self == Metric::PhotovoltaicPower1 ==> r@ == "anker_solix_photovoltaic_power_1"@,
            *self == Metric::PhotovoltaicPower2 ==> r@ == "anker_solix_photovoltaic_power_2"@,
            *self == Metric::PhotovoltaicPower3 ==> r@ == "anker_solix_photovoltaic_power_3"@,
            *self == Metric::PhotovoltaicPower4 ==> r@ == "anker_solix_photovoltaic_power_4"@,
            *self == Metric::BatteryPower ==> r@ == "anker_solix_solarbank_battery_power"@,
            *self == Metric::BatteryPercent ==> r@ == "anker_solix_solarbank_power_percent"@,
            *self == Metric::ChargingPower ==> r@ == "anker_solix_solarbank_charging_power"@,
            *self == Metric::OutputPower ==> r@ == "anker_solix_solarbank_output_power"@,
            *self == Metric::PhotovoltaicPower ==> r@ == "anker_solix_photovoltaic_power"@,
            *self == Metric::StatisticPower ==> r@ == "anker_solix_statistic_total_power"@,
            *self == Metric::StatisticCo2 ==> r@ == "anker_solix_statistic_total_co2"@,
            *self == Metric::StatisticMoney ==> r@ == "anker_solix_statistic_total_money"@,
    {
        match self {
            Metric::HomeLoadPower => "anker_solix_home_load_power",
            Metric::OtherLoadsPower => "anker_solix_other_loads_power",
            Metric::GridToHomePower => "anker_solix_grid_to_home_power",
            Metric::PhotovoltaicToGridPower => "anker_solix_photovoltaic_to_grid_power",
            Metric::HomeChargingPower => "anker_solix_home_charging_power",
            Metric::PhotovoltaicPower1 => "anker_solix_photovoltaic_power_1",
            Metric::PhotovoltaicPower2 => "anker_solix_photovoltaic_power_2",
            Metric::PhotovoltaicPower3 => "anker_solix_photovoltaic_power_3",
            Metric::PhotovoltaicPower4 => "anker_solix_photovoltaic_power_4",
            Metric::BatteryPower => "anker_solix_solarbank_battery_power",
            Metric::BatteryPercent => "anker_solix_solarbank_power_percent",
            Metric::ChargingPower => "anker_solix_solarbank_charging_power",
            Metric::OutputPower => "anker_solix_solarbank_output_power",
            Metric::PhotovoltaicPower => "anker_solix_photovoltaic_power",
            Metric::StatisticPower => "anker_solix_statistic_total_power",
            Metric::StatisticCo2 => "anker_solix_statistic_total_co2",
            Metric::StatisticMoney => "anker_solix_statistic_total_money",
        }
    }

    /// The help text exported with the gauge.
    pub fn help(&self) -> (r: &'static str)
        ensures
            *self == Metric::HomeLoadPower ==> r@ == "Power drawn by the home load"@,
            *self == Metric::OtherLoadsPower ==> r@ == "Power drawn by other loads"@,
            *self == Metric::GridToHomePower ==> r@ == "Power that flows from the grid into the home"@,
            *self == Metric::PhotovoltaicToGridPower ==> r@ == "Power that flows from the home to the grid"@,
            *self == Metric::HomeChargingPower ==> r@ == "Power used to charge from the home"@,
            *self == Metric::PhotovoltaicPower1 ==> r@ == "Power of photovoltaic string 1"@,
            *self == Metric::PhotovoltaicPower2 ==> r@ == "Power of photovoltaic string 2"@,
            *self == Metric::PhotovoltaicPower3 ==> r@ == "Power of photovoltaic string 3"@,
            *self == Metric::PhotovoltaicPower4 ==> r@ == "Power of photovoltaic string 4"@,
            *self == Metric::BatteryPower ==> r@ == "Battery power of the bank"@,
            *self == Metric::BatteryPercent ==> r@ == "Total power of bank in percent (percent)"@,
            *self == Metric::ChargingPower ==> r@ == "Charging power of the bank"@,
            *self == Metric::OutputPower ==> r@ == "Output power of the bank"@,
            *self == Metric::PhotovoltaicPower ==> r@ == "Photovoltaic power of the bank"@,
            *self == Metric::StatisticPower ==> r@ == "Total energy generated"@,
            *self == Metric::StatisticCo2 ==> r@ == "Total CO2 saved"@,
            *self == Metric::StatisticMoney ==> r@ == "Total money saved"@,
    {
        match self {
            Metric::HomeLoadPower => "Power drawn by the home load",
            Metric::OtherLoadsPower => "Power drawn by other loads",
            Metric::GridToHomePower => "Power that flows from the grid into the home",
            Metric::PhotovoltaicToGridPower => "Power that flows from the home to the grid",
            Metric::HomeChargingPower => "Power used to charge from the home",
            Metric::PhotovoltaicPower1 => "Power of photovoltaic string 1",
            Metric::PhotovoltaicPower2 => "Power of photovoltaic string 2",
            Metric::PhotovoltaicPower3 => "Power of photovoltaic string 3",
            Metric::PhotovoltaicPower4 => "Power of photovoltaic string 4",
            Metric::BatteryPower => "Battery power of the bank",
            Metric::BatteryPercent => "Total power of bank in percent (percent)",
            Metric::ChargingPower => "Charging power of the bank",
            Metric::OutputPower => "Output power of the bank",
            Metric::PhotovoltaicPower => "Photovoltaic power of the bank",
            Metric::StatisticPower => "Total energy generated",
            Metric::StatisticCo2 => "Total CO2 saved",
            Metric::StatisticMoney => "Total money saved",
        }
    }
}

/// The labels of one series: the site, the physical unit of the value, and
/// for a per-device series the device serial (`None` for a site-wide one).
pub struct Labels {
    pub site_id: String,
    pub unit: String,
    pub device_sn: Option<String>,
}

/// What identifies a series: its gauge and its labels.
pub type SeriesKey = (Metric, Seq<char>, Seq<char>, Option<Seq<char>>);

/// One labelled value; the value is held in thousandths of its unit.
pub struct Sample {
    pub metric: Metric,
    pub labels: Labels,
    pub value: i64,
}

impl Sample {
    pub open spec fn key(&self) -> SeriesKey {
        (
            self.metric,
            self.labels.site_id@,
            self.labels.unit@,
            match self.labels.device_sn {
                Some(d) => Some(d@),
                None => None,
            },
        )
    }

    pub open spec fn entry(&self) -> (SeriesKey, int) {
        (self.key(), self.value as int)
    }
}

pub open spec fn entries_of(s: Seq<Sample>) -> Seq<(SeriesKey, int)> {
    s.map_values(|x: Sample| x.entry())
}

/// Writes each entry in turn into `m`: a later entry for a key overrides an
/// earlier one.
pub open spec fn apply(m: Map<SeriesKey, int>, es: Seq<(SeriesKey, int)>) -> Map<
    SeriesKey,
    int,
>
    decreases es.len(),
{
    if es.len() == 0 {
        m
    } else {
        apply(m, es.drop_last()).insert(es.last().0, es.last().1)
    }
}

/// The current value of every series held in a list of samples.
pub open spec fn series_of(s: Seq<Sample>) -> Map<SeriesKey, int> {
    apply(Map::empty(), entries_of(s))
}

pub open spec fn site_entry(metric: Metric, site: Seq<char>, unit: Seq<char>, v: int) -> (
    SeriesKey,
    int,
) {
    ((metric, site, unit, None), v)
}

/// The four series of one battery unit, keyed by its serial.
pub open spec fn bank_entries(site: Seq<char>, b: Solarbank) -> Seq<(SeriesKey, int)> {
    let dev = Some(b.device_sn@);
    seq![
        ((Metric::BatteryPower, site, b.power_unit@, dev), b.battery_power * 1000),
        ((Metric::ChargingPower, site, b.power_unit@, dev), b.charging_power * 1000),
        ((Metric::OutputPower, site, b.power_unit@, dev), b.output_power * 1000),
        ((Metric::PhotovoltaicPower, site, b.power_unit@, dev), b.photovoltaic_power * 1000),
    ]
}

pub open spec fn banks_entries(site: Seq<char>, bs: Seq<Solarbank>) -> Seq<(SeriesKey, int)>
    decreases bs.len(),
{
    if bs.len() == 0 {
        seq![]
    } else {
        banks_entries(site, bs.drop_last()) + bank_entries(site, bs.last())
    }
}

/// The first statistic of a kind in a document, if any.
pub open spec fn first_of_kind(ss: Seq<Statistic>, kind: u32) -> Option<Statistic>
    decreases ss.len(),
{
    if ss.len() == 0 {
        None
    } else if ss[0].kind == kind {
        Some(ss[0])
    } else {
        first_of_kind(ss.drop_first(), kind)
    }
}

/// The series that the first statistic of a kind feeds, if there is one.
pub open spec fn kind_entry(site: Seq<char>, ss: Seq<Statistic>, kind: u32, m: Metric) -> Seq<
    (SeriesKey, int),
> {
    match first_of_kind(ss, kind) {
        Some(st) => seq![site_entry(m, site, st.unit@, st.total_milli as int)],
        None => seq![],
    }
}

/// The statistics series of a document: energy (kind 1), CO2 (kind 2) and
/// money (kind 3), each from the first statistic of its kind; later ones of
/// the same kind and other kinds are ignored.
pub open spec fn statistics_entries(site: Seq<char>, ss: Seq<Statistic>) -> Seq<(SeriesKey, int)> {
    kind_entry(site, ss, 1, Metric::StatisticPower) + kind_entry(site, ss, 2, Metric::StatisticCo2)
        + kind_entry(site, ss, 3, Metric::StatisticMoney)
}

/// A charge fraction (in thousandths) as a whole percent: negative values
/// read as 0 and values past `u32::MAX` as `u32::MAX`.
pub open spec fn percent_of(fraction_milli: int) -> int {
    if fraction_milli < 0 {
        0
    } else if fraction_milli / 10 > u32::MAX {
        u32::MAX as int
    } else {
        fraction_milli / 10
    }
}

/// The site-wide series of a document, in the order in which they are written.
pub open spec fn site_entries(site: Seq<char>, d: ScenInfo) -> Seq<(SeriesKey, int)> {
    let sb = d.solarbank_info;
    let u = sb.power_unit@;
    seq![
        site_entry(Metric::HomeLoadPower, site, u, d.home_load_power * 1000),
        site_entry(Metric::OtherLoadsPower, site, u, d.other_loads_power * 1000),
        site_entry(Metric::GridToHomePower, site, u, d.grid_info.grid_to_home_power * 1000),
        site_entry(
            Metric::PhotovoltaicToGridPower,
            site,
            u,
            d.grid_info.photovoltaic_to_grid_power * 1000,
        ),
        site_entry(
            Metric::HomeChargingPower,
            site,
            d.home_info.power_unit@,
            d.home_info.charging_power_milli as int,
        ),
        site_entry(Metric::PhotovoltaicPower1, site, u, sb.solar_power_1 * 1000),
        site_entry(Metric::PhotovoltaicPower2, site, u, sb.solar_power_2 * 1000),
        site_entry(Metric::PhotovoltaicPower3, site, u, sb.solar_power_3 * 1000),
        site_entry(Metric::PhotovoltaicPower4, site, u, sb.solar_power_4 * 1000),
        site_entry(Metric::BatteryPower, site, u, sb.total_battery_power_milli as int),
        site_entry(
            Metric::BatteryPercent,
            site,
            "percent"@,
            percent_of(sb.total_battery_power_milli as int) * 1000,
        ),
        site_entry(Metric::ChargingPower, site, u, sb.total_charging_power * 1000),
        site_entry(Metric::OutputPower, site, u, sb.total_output_power_milli as int),
        site_entry(Metric::PhotovoltaicPower, site, u, sb.total_photovoltaic_power * 1000),
    ]
}

/// Everything that one document writes, in order: the site-wide series,
/// then each battery unit, then the known statistics.
pub open spec fn projection(site: Seq<char>, d: ScenInfo) -> Seq<(SeriesKey, int)> {
    site_entries(site, d) + banks_entries(site, d.solarbank_info.solarbank_list@)
        + statistics_entries(site, d.statistics@)
}

fn sample(metric: Metric, site: &String, unit: &String, device: Option<&String>, value: i64) -> (r:
    Sample)
    ensures
        r.entry() == ((
            metric,
            site@,
            unit@,
            match device {
                Some(d) => Some(d@),
                None => None::<Seq<char>>,
            },
        ), value as int),
{
    let device_sn = match device {
        Some(d) => Some(d.clone()),
        None => None,
    };
    Sample { metric, labels: Labels { site_id: site.clone(), unit: unit.clone(), device_sn }, value }
}

proof fn lemma_entries_push(s: Seq<Sample>, x: Sample)
    ensures
        entries_of(s.push(x)) == entries_of(s).push(x.entry()),
{
    assert(entries_of(s.push(x)) =~= entries_of(s).push(x.entry()));
}

/// Where the first statistic of a kind stands, if any.
fn first_statistic(stats: &Vec<Statistic>, kind: u32) -> (r: Option<usize>)
    ensures
        match first_of_kind(stats@, kind) {
            Some(st) => r matches Some(i) && i < stats@.len() && stats@[i as int] == st,
            None => r is None,
        },
{
    let mut i: usize = 0;
    assert(stats@.skip(0) =~= stats@);
    while i < stats.len()
        invariant
            i <= stats@.len(),
            first_of_kind(stats@, kind) == first_of_kind(stats@.skip(i as int), kind),
        decreases stats.len() - i,
    {
        assert(stats@.skip(i as int)[0] == stats@[i as int]);
        if stats[i].kind == kind {
            return Some(i);
        }
        assert(stats@.skip(i as int).drop_first() =~= stats@.skip(i + 1));
        i = i + 1;
    }
    None
}

fn push_statistic(out: &mut Vec<Sample>, site_id: &String, stats: &Vec<Statistic>, kind: u32, m: Metric)
    ensures
        entries_of(final(out)@) == entries_of(old(out)@) + kind_entry(site_id@, stats@, kind, m),
{
    match first_statistic(stats, kind) {
        Some(i) => {
            let x = sample(m, site_id, &stats[i].unit, None, stats[i].total_milli);
            proof {
                lemma_entries_push(out@, x);
            }
            out.push(x);
            assert(entries_of(out@) =~= entries_of(old(out)@) + kind_entry(site_id@, stats@, kind, m));
        },
        None => {
            assert(entries_of(out@) =~= entries_of(old(out)@) + kind_entry(site_id@, stats@, kind, m));
        },
    }
}

/// The samples that one document writes for a site, in order.
pub fn project(site_id: &String, doc: &ScenInfo) -> (r: Vec<Sample>)
    ensures
        entries_of(r@) == projection(site_id@, *doc),
{
    let sb = &doc.solarbank_info;
    let u = &sb.power_unit;
    let mut out: Vec<Sample> = Vec::new();
    let ghost s = site_id@;
    proof {
        assert(entries_of(out@) =~= seq![]);
    }
    let percent_unit = "percent".to_owned();
    let f = sb.total_battery_power_milli;
    let percent: i64 = if f < 0 {
        0
    } else if f / 10 > u32::MAX as i64 {
        u32::MAX as i64
    } else {
        f / 10
    };
    let items: [(Metric, &String, i64); 14] = [
        (Metric::HomeLoadPower, u, doc.home_load_power as i64 * 1000),
        (Metric::OtherLoadsPower, u, doc.other_loads_power as i64 * 1000),
        (Metric::GridToHomePower, u, doc.grid_info.grid_to_home_power as i64 * 1000),
        (Metric::PhotovoltaicToGridPower, u, doc.grid_info.photovoltaic_to_grid_power as i64 * 1000),
        (Metric::HomeChargingPower, &doc.home_info.power_unit, doc.home_info.charging_power_milli),
        (Metric::PhotovoltaicPower1, u, sb.solar_power_1 as i64 * 1000),
        (Metric::PhotovoltaicPower2, u, sb.solar_power_2 as i64 * 1000),
        (Metric::PhotovoltaicPower3, u, sb.solar_power_3 as i64 * 1000),
        (Metric::PhotovoltaicPower4, u, sb.solar_power_4 as i64 * 1000),
        (Metric::BatteryPower, u, sb.total_battery_power_milli),
        (Metric::BatteryPercent, &percent_unit, percent * 1000),
        (Metric::ChargingPower, u, sb.total_charging_power as i64 * 1000),
        (Metric::OutputPower, u, sb.total_output_power_milli),
        (Metric::PhotovoltaicPower, u, sb.total_photovoltaic_power as i64 * 1000),
    ];
    let ghost site_part = site_entries(s, *doc);
    assert forall|k: int| 0 <= k < 14 implies site_part[k] == site_entry(
        items[k].0,
        s,
        items[k].1@,
        items[k].2 as int,
    ) by {}
    let mut k: usize = 0;
    while k < 14
        invariant
            0 <= k <= 14,
            s == site_id@,
            site_part.len() == 14,
            entries_of(out@) == site_part.take(k as int),
            forall|j: int| 0 <= j < 14 ==> site_part[j] == site_entry(
                items[j].0,
                s,
                items[j].1@,
                items[j].2 as int,
            ),
        decreases 14 - k,
    {
        let x = sample(items[k].0, site_id, items[k].1, None, items[k].2);
        proof {
            lemma_entries_push(out@, x);
            assert(site_part.take(k as int + 1) =~= site_part.take(k as int).push(site_part[k as int]));
        }
        out.push(x);
        k = k + 1;
    }
    assert(site_part.take(14) =~= site_part);
    let banks = &sb.solarbank_list;
    let mut i: usize = 0;
    while i < banks.len()
        invariant
            0 <= i <= banks.len(),
            s == site_id@,
            entries_of(out@) == site_part + banks_entries(s, banks@.take(i as int)),
        decreases banks.len() - i,
    {
        let b = &banks[i];
        let dev = Some(&b.device_sn);
        let ghost before = entries_of(out@);
        let x1 = sample(Metric::BatteryPower, site_id, &b.power_unit, dev, b.battery_power as i64 * 1000);
        let x2 = sample(Metric::ChargingPower, site_id, &b.power_unit, dev, b.charging_power as i64 * 1000);
        let x3 = sample(Metric::OutputPower, site_id, &b.power_unit, dev, b.output_power as i64 * 1000);
        let x4 = sample(
            Metric::PhotovoltaicPower,
            site_id,
            &b.power_unit,
            dev,
            b.photovoltaic_power as i64 * 1000,
        );
        proof {
            lemma_entries_push(out@, x1);
            lemma_entries_push(out@.push(x1), x2);
            lemma_entries_push(out@.push(x1).push(x2), x3);
            lemma_entries_push(out@.push(x1).push(x2).push(x3), x4);
        }
        out.push(x1);
        out.push(x2);
        out.push(x3);
        out.push(x4);
        proof {
            assert(banks@.take(i as int + 1).drop_last() =~= banks@.take(i as int));
            assert(entries_of(out@) =~= before + bank_entries(s, banks@[i as int]));
        }
        i = i + 1;
    }
    assert(banks@.take(banks.len() as int) =~= banks@);
    let stats = &doc.statistics;
    let ghost pre = entries_of(out@);
    push_statistic(&mut out, site_id, stats, 1, Metric::StatisticPower);
    push_statistic(&mut out, site_id, stats, 2, Metric::StatisticCo2);
    push_statistic(&mut out, site_id, stats, 3, Metric::StatisticMoney);
    assert(entries_of(out@) =~= pre + statistics_entries(s, stats@));
    out
}

proof fn lemma_apply_push(m: Map<SeriesKey, int>, es: Seq<(SeriesKey, int)>, e: (SeriesKey, int))
    ensures
        apply(m, es.push(e)) == apply(m, es).insert(e.0, e.1),
{
    assert(es.push(e).drop_last() =~= es);
}

/// Overwriting the last entry for a key is writing that key afresh.
proof fn lemma_apply_update_last(
    m: Map<SeriesKey, int>,
    es: Seq<(SeriesKey, int)>,
    j: int,
    e: (SeriesKey, int),
)
    requires
        0 <= j < es.len(),
        es[j].0 == e.0,
        forall|i: int| j < i < es.len() ==> es[i].0 != e.0,
    ensures
        apply(m, es.update(j, e)) == apply(m, es).insert(e.0, e.1),
    decreases es.len(),
{
    let u = es.update(j, e);
    if j == es.len() - 1 {
        assert(u.drop_last() =~= es.drop_last());
        assert(apply(m, u) =~= apply(m, es).insert(e.0, e.1));
    } else {
        let d = es.drop_last();
        assert(u.drop_last() =~= d.update(j, e));
        lemma_apply_update_last(m, d, j, e);
        assert(es.last().0 != e.0);
        assert(apply(m, u) =~= apply(m, es).insert(e.0, e.1));
    }
}

/// Writing entries into a map is the same as laying their own map over it.
proof fn lemma_apply_union(m: Map<SeriesKey, int>, es: Seq<(SeriesKey, int)>)
    ensures
        apply(m, es) == m.union_prefer_right(apply(Map::empty(), es)),
    decreases es.len(),
{
    if es.len() == 0 {
        assert(m.union_prefer_right(Map::empty()) =~= m);
    } else {
        lemma_apply_union(m, es.drop_last());
        assert(apply(m, es) =~= m.union_prefer_right(apply(Map::empty(), es)));
    }
}

/// Applying the same entries twice leaves what applying them once left.
proof fn lemma_apply_twice(m: Map<SeriesKey, int>, es: Seq<(SeriesKey, int)>)
    ensures
        apply(apply(m, es), es) == apply(m, es),
{
    let a = apply(Map::empty(), es);
    lemma_apply_union(m, es);
    lemma_apply_union(apply(m, es), es);
    assert(m.union_prefer_right(a).union_prefer_right(a) =~= m.union_prefer_right(a));
}

/// Updating with the same document twice leaves every series as updating
/// with it once did.
/// The series held after writing entries over those in `ks`, in the order in
/// which each was first written: a series already held keeps its place, a new
/// one goes at the end.
pub open spec fn add_keys(ks: Seq<SeriesKey>, es: Seq<(SeriesKey, int)>) -> Seq<SeriesKey>
    decreases es.len(),
{
    if es.len() == 0 {
        ks
    } else {
        let p = add_keys(ks, es.drop_last());
        if p.contains(es.last().0) {
            p
        } else {
            p.push(es.last().0)
        }
    }
}

proof fn lemma_add_keys_keeps(ks: Seq<SeriesKey>, es: Seq<(SeriesKey, int)>, k: SeriesKey)
    requires
        ks.contains(k),
    ensures
        add_keys(ks, es).contains(k),
    decreases es.len(),
{
    if es.len() > 0 {
        lemma_add_keys_keeps(ks, es.drop_last(), k);
        let p = add_keys(ks, es.drop_last());
        let j = choose|j: int| 0 <= j < p.len() && p[j] == k;
        assert(p.push(es.last().0)[j] == k);
    }
}

proof fn lemma_add_keys_holds(ks: Seq<SeriesKey>, es: Seq<(SeriesKey, int)>, i: int)
    requires
        0 <= i < es.len(),
    ensures
        add_keys(ks, es).contains(es[i].0),
    decreases es.len(),
{
    let d = es.drop_last();
    let p = add_keys(ks, d);
    if i < es.len() - 1 {
        lemma_add_keys_holds(ks, d, i);
        assert(d[i] == es[i]);
        let j = choose|j: int| 0 <= j < p.len() && p[j] == es[i].0;
        assert(p.push(es.last().0)[j] == es[i].0);
    } else if !p.contains(es.last().0) {
        assert(p.push(es.last().0)[p.len() as int] == es[i].0);
    }
}

proof fn lemma_add_keys_none_new(ks: Seq<SeriesKey>, es: Seq<(SeriesKey, int)>)
    requires
        forall|i: int| 0 <= i < es.len() ==> ks.contains(#[trigger] es[i].0),
    ensures
        add_keys(ks, es) == ks,
    decreases es.len(),
{
    if es.len() > 0 {
        let d = es.drop_last();
        assert forall|i: int| 0 <= i < d.len() implies ks.contains(#[trigger] d[i].0) by {
            assert(d[i] == es[i]);
        }
        lemma_add_keys_none_new(ks, d);
        assert(ks.contains(es[es.len() - 1].0));
    }
}

/// Updating with the same document twice leaves every series, and the order
/// in which the series are held, as updating with it once did.
pub proof fn lemma_update_idempotent(
    before: Map<SeriesKey, int>,
    keys: Seq<SeriesKey>,
    site: Seq<char>,
    doc: ScenInfo,
)
    ensures
        apply(apply(before, projection(site, doc)), projection(site, doc)) == apply(
            before,
            projection(site, doc),
        ),
        add_keys(add_keys(keys, projection(site, doc)), projection(site, doc)) == add_keys(
            keys,
            projection(site, doc),
        ),
{
    let es = projection(site, doc);
    lemma_apply_twice(before, es);
    assert forall|i: int| 0 <= i < es.len() implies add_keys(keys, es).contains(
        #[trigger] es[i].0,
    ) by {
        lemma_add_keys_holds(keys, es, i);
    }
    lemma_add_keys_none_new(add_keys(keys, es), es);
}

proof fn lemma_apply_dom(es: Seq<(SeriesKey, int)>, k: SeriesKey)
    ensures
        apply(Map::empty(), es).dom().contains(k) <==> exists|i: int|
            0 <= i < es.len() && #[trigger] es[i].0 == k,
    decreases es.len(),
{
    if es.len() > 0 {
        let d = es.drop_last();
        lemma_apply_dom(d, k);
        if exists|i: int| 0 <= i < d.len() && #[trigger] d[i].0 == k {
            let i = choose|i: int| 0 <= i < d.len() && #[trigger] d[i].0 == k;
            assert(es[i].0 == k);
        }
        if exists|i: int| 0 <= i < es.len() && #[trigger] es[i].0 == k {
            let i = choose|i: int| 0 <= i < es.len() && #[trigger] es[i].0 == k;
            if i < es.len() - 1 {
                assert(d[i].0 == k);
            }
        }
    }
}

/// The gauges that each battery unit feeds, besides their site-wide total.
pub open spec fn battery_gauge(m: Metric) -> bool {
    m == Metric::BatteryPower || m == Metric::ChargingPower || m == Metric::OutputPower || m
        == Metric::PhotovoltaicPower
}

/// Where a battery gauge stands among the four series of one unit.
spec fn bank_slot(m: Metric) -> int {
    if m == Metric::BatteryPower {
        0
    } else if m == Metric::ChargingPower {
        1
    } else if m == Metric::OutputPower {
        2
    } else {
        3
    }
}

/// Where a battery gauge's site-wide total stands among the site series.
spec fn site_slot(m: Metric) -> int {
    if m == Metric::BatteryPower {
        9
    } else if m == Metric::ChargingPower {
        11
    } else if m == Metric::OutputPower {
        12
    } else {
        13
    }
}

/// With two battery units of distinct serials, a document gives each battery
/// gauge exactly three series: one for each unit and one site-wide total.
pub proof fn lemma_two_units_three_series(site: Seq<char>, doc: ScenInfo, m: Metric)
    requires
        battery_gauge(m),
        doc.solarbank_info.solarbank_list@.len() == 2,
        doc.solarbank_info.solarbank_list@[0].device_sn@
            != doc.solarbank_info.solarbank_list@[1].device_sn@,
    ensures
        ({
            let bs = doc.solarbank_info.solarbank_list@;
            let want = set![
                (m, site, doc.solarbank_info.power_unit@, None::<Seq<char>>),
                (m, site, bs[0].power_unit@, Some(bs[0].device_sn@)),
                (m, site, bs[1].power_unit@, Some(bs[1].device_sn@)),
            ];
            &&& apply(Map::empty(), projection(site, doc)).dom().filter(
                |k: SeriesKey| k.0 == m,
            ) == want
            &&& want.len() == 3
        }),
{
    let bs = doc.solarbank_info.solarbank_list@;
    let u = doc.solarbank_info.power_unit@;
    let sk = (m, site, u, None::<Seq<char>>);
    let k0 = (m, site, bs[0].power_unit@, Some(bs[0].device_sn@));
    let k1 = (m, site, bs[1].power_unit@, Some(bs[1].device_sn@));
    let want = set![sk, k0, k1];
    let sp = site_entries(site, doc);
    let st = statistics_entries(site, doc.statistics@);
    assert(bs.drop_last().drop_last() =~= Seq::<Solarbank>::empty());
    assert(bs.drop_last().last() == bs[0]);
    let be = bank_entries(site, bs[0]) + bank_entries(site, bs[1]);
    assert(banks_entries(site, Seq::<Solarbank>::empty()) == Seq::<(SeriesKey, int)>::empty());
    assert(banks_entries(site, bs.drop_last()) == banks_entries(site, bs.drop_last().drop_last())
        + bank_entries(site, bs.drop_last().last()));
    assert(banks_entries(site, bs.drop_last()) =~= bank_entries(site, bs[0]));
    assert(bs.last() == bs[1]);
    assert(banks_entries(site, bs) =~= be);
    let es = projection(site, doc);
    assert(es =~= sp + be + st);
    assert(es.len() == 22 + st.len());
    assert(es[site_slot(m)].0 == sk);
    assert(es[14 + bank_slot(m)].0 == k0);
    assert(es[18 + bank_slot(m)].0 == k1);
    assert forall|j: int| 0 <= j < st.len() implies st[j].0.0 != m by {}
    let dom = apply(Map::empty(), es).dom().filter(|k: SeriesKey| k.0 == m);
    assert forall|k: SeriesKey| #[trigger] dom.contains(k) <==> want.contains(k) by {
        lemma_apply_dom(es, k);
        if want.contains(k) {
            if k == sk {
                assert(es[site_slot(m)].0 == k);
            } else if k == k0 {
                assert(es[14 + bank_slot(m)].0 == k);
            } else {
                assert(es[18 + bank_slot(m)].0 == k);
            }
        }
        if dom.contains(k) {
            let i = choose|i: int| 0 <= i < es.len() && #[trigger] es[i].0 == k;
            if i >= 22 {
                assert(es[i] == st[i - 22]);
            }
        }
    }
    assert(dom =~= want);
    assert(sk != k0 && sk != k1 && k0 != k1);
    assert(set![sk].len() == 1) by {
        assert(set![sk] =~= Set::<SeriesKey>::empty().insert(sk));
    }
    assert(want.len() == 3) by {
        assert(want =~= Set::<SeriesKey>::empty().insert(sk).insert(k0).insert(k1));
    }
}

/// Where each series is held once, each sample holds its series' value.
proof fn lemma_series_lookup(s: Seq<Sample>, i: int)
    requires
        s.map_values(|x: Sample| x.key()).no_duplicates(),
        0 <= i < s.len(),
    ensures
        series_of(s).contains_key(s[i].key()),
        series_of(s)[s[i].key()] == s[i].value as int,
    decreases s.len(),
{
    let d = s.drop_last();
    assert(entries_of(s).drop_last() =~= entries_of(d));
    assert(entries_of(s).last() == s.last().entry());
    if i < s.len() - 1 {
        let ks = s.map_values(|x: Sample| x.key());
        assert(d.map_values(|x: Sample| x.key()) =~= ks.drop_last());
        assert(ks[i] != ks[s.len() - 1]);
        lemma_series_lookup(d, i);
        assert(d[i] == s[i]);
    }
}

/// Labelled gauges holding the last value written for each series.
pub struct Metrics {
    samples: Vec<Sample>,
}

fn same_key(a: &Sample, b: &Sample) -> (r: bool)
    ensures
        r == (a.key() == b.key()),
{
    let dev = match (&a.labels.device_sn, &b.labels.device_sn) {
        (Some(x), Some(y)) => *x == *y,
        (None, None) => true,
        _ => false,
    };
    a.metric == b.metric && a.labels.site_id == b.labels.site_id && a.labels.unit == b.labels.unit
        && dev
}

impl Metrics {
    /// The value of every series written so far.
    pub closed spec fn series(&self) -> Map<SeriesKey, int> {
        series_of(self.samples@)
    }

    /// The series held, in the order in which each was first written.
    pub closed spec fn keys(&self) -> Seq<SeriesKey> {
        self.samples@.map_values(|x: Sample| x.key())
    }

    /// Each series is held once.
    pub closed spec fn wf(&self) -> bool {
        self.keys().no_duplicates()
    }

    pub fn new() -> (r: Self)
        ensures
            r.wf(),
            r.series() == Map::<SeriesKey, int>::empty(),
            r.keys() == Seq::<SeriesKey>::empty(),
    {
        let r = Metrics { samples: Vec::new() };
        assert(r.keys() =~= Seq::<SeriesKey>::empty());
        r
    }

    /// Every series held, one sample each, in the order first written.
    pub fn samples(&self) -> (r: &Vec<Sample>)
        ensures
            series_of(r@) == self.series(),
            r@.map_values(|x: Sample| x.key()) == self.keys(),
            self.wf() ==> forall|i: int|
                0 <= i < r@.len() ==> self.series().contains_key(#[trigger] r@[i].key())
                    && self.series()[r@[i].key()] == r@[i].value,
    {
        proof {
            if self.wf() {
                assert forall|i: int| 0 <= i < self.samples@.len() implies self.series().contains_key(
                    #[trigger] self.samples@[i].key(),
                ) && self.series()[self.samples@[i].key()] == self.samples@[i].value by {
                    lemma_series_lookup(self.samples@, i);
                }
            }
        }
        &self.samples
    }

    /// Writes one sample: its series now holds its value, others are unchanged.
    pub fn set(&mut self, x: Sample)
        requires
            old(self).wf(),
        ensures
            final(self).wf(),
            final(self).series() == old(self).series().insert(x.key(), x.value as int),
            final(self).keys() == if old(self).keys().contains(x.key()) {
                old(self).keys()
            } else {
                old(self).keys().push(x.key())
            },
    {
        let ghost k = x.key();
        let mut i: usize = self.samples.len();
        while i > 0
            invariant
                i <= self.samples.len(),
                self.samples@ == old(self).samples@,
                old(self).wf(),
                forall|t: int| i <= t < self.samples@.len() ==> self.samples@[t].key() != k,
                k == x.key(),
            decreases i,
        {
            if same_key(&self.samples[i - 1], &x) {
                let ghost before = self.samples@;
                let ghost e = x.entry();
                proof {
                    assert(entries_of(before)[i - 1].0 == e.0);
                    assert forall|t: int| i - 1 < t < before.len() implies entries_of(before)[t].0
                        != e.0 by {
                        assert(entries_of(before)[t] == before[t].entry());
                    }
                    lemma_apply_update_last(Map::empty(), entries_of(before), i - 1, e);
                    assert(entries_of(before.update(i - 1, x)) =~= entries_of(before).update(
                        i - 1,
                        e,
                    ));
                }
                self.samples.set(i - 1, x);
                proof {
                    assert(old(self).keys()[i - 1] == k);
                    assert(self.keys() =~= old(self).keys());
                    assert(self.keys() == old(self).keys());
                    assert(old(self).keys().contains(k));
                }
                return;
            }
            i = i - 1;
        }
        proof {
            lemma_entries_push(self.samples@, x);
            lemma_apply_push(Map::empty(), entries_of(self.samples@), x.entry());
        }
        proof {
            assert forall|t: int| 0 <= t < old(self).keys().len() implies old(self).keys()[t] != k by {
                assert(old(self).keys()[t] == self.samples@[t].key());
            }
        }
        self.samples.push(x);
        assert(self.keys() =~= old(self).keys().push(k));
    }

    /// Writes every series that a site's document carries; series that the
    /// document does not carry keep their last value.
    pub fn update(&mut self, site_id: &String, doc: &ScenInfo)
        requires
            old(self).wf(),
        ensures
            final(self).wf(),
            final(self).series() == apply(old(self).series(), projection(site_id@, *doc)),
            final(self).keys() == add_keys(old(self).keys(), projection(site_id@, *doc)),
    {
        let mut items = project(site_id, doc);
        let ghost start_keys = self.keys();
        let ghost all = items@;
        let ghost es = entries_of(all);
        let ghost start = self.series();
        let mut n: usize = 0;
        let len0 = items.len();
        let ghost total = all.len();
        // Written in document order, so that a later entry for a series wins.
        while items.len() > 0
            invariant
                n + items@.len() == total,
                total == all.len(),
                total == len0,
                es == entries_of(all),
                items@ == all.subrange(n as int, total as int),
                self.series() == apply(start, es.take(n as int)),
                self.keys() == add_keys(start_keys, es.take(n as int)),
                self.wf(),
            decreases items.len(),
        {
            let x = items.remove(0);
            proof {
                assert(x == all[n as int]);
                assert(x.entry() == es[n as int]);
                assert(es.take(n + 1) =~= es.take(n as int).push(es[n as int]));
                lemma_apply_push(start, es.take(n as int), es[n as int]);
                assert(es.take(n + 1).drop_last() =~= es.take(n as int));
                assert(items@ =~= all.subrange(n + 1, total as int));
            }
            self.set(x);
            n = n + 1;
        }
        assert(es.take(es.len() as int) =~= es);
    }
}

} // verus!
