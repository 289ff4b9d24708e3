use solix_exporter::auth::AuthController;
use solix_exporter::data::{GridInfo, HomeInfo, ScenInfo, Solarbank, SolarbankInfo, Statistic};
use solix_exporter::metrics::{project, Metric, Metrics, Sample};

fn bank(sn: &str, base: u32) -> Solarbank {
    Solarbank {
        battery_power: base,
        charging_power: base + 1,
        output_power: base + 2,
        photovoltaic_power: base + 3,
        power_unit: "W".to_string(),
        device_sn: sn.to_string(),
    }
}

fn doc(banks: Vec<Solarbank>, output_milli: i64) -> ScenInfo {
    ScenInfo {
        grid_info: GridInfo { grid_to_home_power: 5, photovoltaic_to_grid_power: 6 },
        home_info: HomeInfo { charging_power_milli: 1500, power_unit: "W".to_string() },
        solarbank_info: SolarbankInfo {
            solar_power_1: 11,
            solar_power_2: 12,
            solar_power_3: 13,
            solar_power_4: 14,
            solarbank_list: banks,
            to_home_load: 300,
            total_battery_power_milli: 530,
            total_charging_power: 20,
            total_output_power_milli: output_milli,
            total_photovoltaic_power: 50,
            power_unit: "W".to_string(),
        },
        statistics: vec![
            Statistic { total_milli: 123_450, kind: 1, unit: "kWh".to_string() },
            Statistic { total_milli: 60_000, kind: 2, unit: "kg".to_string() },
            Statistic { total_milli: 7_250, kind: 3, unit: "EUR".to_string() },
            Statistic { total_milli: 1, kind: 9, unit: "?".to_string() },
        ],
        home_load_power: 300,
        other_loads_power: 40,
    }
}

fn snapshot(m: &Metrics) -> Vec<(String, String, String, Option<String>, i64)> {
    m.samples()
        .iter()
        .map(|s: &Sample| {
            (
                s.metric.name().to_string(),
                s.labels.site_id.clone(),
                s.labels.unit.clone(),
                s.labels.device_sn.clone(),
                s.value,
            )
        })
        .collect()
}

#[test]
fn two_batteries_give_two_device_label_sets_and_one_site_set() {
    let samples = project(&"site".to_string(), &doc(vec![bank("A1", 10), bank("B2", 20)], 2500));
    let battery: Vec<Option<String>> = samples
        .iter()
        .filter(|s| s.metric == Metric::BatteryPower)
        .map(|s| s.labels.device_sn.clone())
        .collect();
    assert_eq!(battery, vec![None, Some("A1".to_string()), Some("B2".to_string())]);
    for m in [Metric::ChargingPower, Metric::OutputPower, Metric::PhotovoltaicPower] {
        assert_eq!(samples.iter().filter(|s| s.metric == m).count(), 3);
    }
    assert_eq!(samples.len(), 14 + 2 * 4 + 3);
}

#[test]
fn projection_values_are_in_thousandths() {
    let samples = project(&"site".to_string(), &doc(vec![bank("A1", 10)], 2500));
    let value = |m: Metric, dev: Option<&str>| {
        samples
            .iter()
            .find(|s| s.metric == m && s.labels.device_sn.as_deref() == dev)
            .map(|s| s.value)
            .unwrap()
    };
    assert_eq!(value(Metric::HomeLoadPower, None), 300_000);
    assert_eq!(value(Metric::GridToHomePower, None), 5_000);
    assert_eq!(value(Metric::HomeChargingPower, None), 1_500);
    assert_eq!(value(Metric::BatteryPower, None), 530);
    assert_eq!(value(Metric::OutputPower, None), 2_500);
    assert_eq!(value(Metric::ChargingPower, Some("A1")), 11_000);
    assert_eq!(value(Metric::StatisticPower, None), 123_450);
    assert_eq!(value(Metric::StatisticCo2, None), 60_000);
    assert_eq!(value(Metric::StatisticMoney, None), 7_250);
}

#[test]
fn update_twice_gives_the_same_snapshot() {
    let mut m = Metrics::new();
    let d = doc(vec![bank("A1", 10), bank("B2", 20)], 2500);
    m.update(&"site".to_string(), &d);
    let once = snapshot(&m);
    m.update(&"site".to_string(), &d);
    assert_eq!(snapshot(&m), once);
}

#[test]
fn update_overwrites_and_keeps_missing_series() {
    let mut m = Metrics::new();
    m.update(&"site".to_string(), &doc(vec![bank("A1", 10), bank("B2", 20)], 2500));
    let before = snapshot(&m).len();
    m.update(&"site".to_string(), &doc(vec![bank("A1", 99)], 4000));
    let after = snapshot(&m);
    assert_eq!(after.len(), before);
    let get = |name: &str, dev: Option<&str>| {
        after
            .iter()
            .find(|s| s.0 == name && s.3.as_deref() == dev)
            .map(|s| s.4)
            .unwrap()
    };
    assert_eq!(get("anker_solix_solarbank_output_power", None), 4000);
    assert_eq!(get("anker_solix_solarbank_battery_power", Some("A1")), 99_000);
    assert_eq!(get("anker_solix_solarbank_battery_power", Some("B2")), 20_000);
}

#[test]
fn set_replaces_a_series_in_place() {
    let mut m = Metrics::new();
    let d = doc(vec![], 0);
    m.update(&"a".to_string(), &d);
    m.update(&"b".to_string(), &d);
    let n = m.samples().len();
    m.update(&"a".to_string(), &d);
    assert_eq!(m.samples().len(), n);
}

#[test]
fn controller_records_telemetry() {
    let mut c = AuthController::new(None);
    c.record_telemetry(&"site".to_string(), &doc(vec![bank("A1", 10)], 2500));
    assert_eq!(c.metrics().samples().len(), 14 + 4 + 3);
}

#[test]
fn metric_names_are_distinct() {
    let all = [
        Metric::HomeLoadPower,
        Metric::OtherLoadsPower,
        Metric::GridToHomePower,
        Metric::PhotovoltaicToGridPower,
        Metric::HomeChargingPower,
        Metric::PhotovoltaicPower1,
        Metric::PhotovoltaicPower2,
        Metric::PhotovoltaicPower3,
        Metric::PhotovoltaicPower4,
        Metric::BatteryPower,
        Metric::BatteryPercent,
        Metric::ChargingPower,
        Metric::OutputPower,
        Metric::PhotovoltaicPower,
        Metric::StatisticPower,
        Metric::StatisticCo2,
        Metric::StatisticMoney,
    ];
    let mut names: Vec<&str> = all.iter().map(|m| m.name()).collect();
    names.sort();
    names.dedup();
    assert_eq!(names.len(), all.len());
    assert!(all.iter().all(|m| !m.help().is_empty()));
}

#[test]
fn only_the_first_statistic_of_a_kind_counts() {
    let mut d = doc(vec![], 0);
    d.statistics = vec![
        Statistic { total_milli: 1_000, kind: 1, unit: "kWh".to_string() },
        Statistic { total_milli: 2_000, kind: 1, unit: "kWh".to_string() },
        Statistic { total_milli: 3_000, kind: 3, unit: "EUR".to_string() },
    ];
    let samples = project(&"site".to_string(), &d);
    let power: Vec<i64> =
        samples.iter().filter(|s| s.metric == Metric::StatisticPower).map(|s| s.value).collect();
    assert_eq!(power, vec![1_000]);
    assert_eq!(samples.iter().filter(|s| s.metric == Metric::StatisticCo2).count(), 0);
    assert_eq!(samples.iter().filter(|s| s.metric == Metric::StatisticMoney).count(), 1);
    let mut m = Metrics::new();
    m.update(&"site".to_string(), &d);
    let kept = snapshot(&m);
    assert!(kept.iter().any(|s| s.0 == "anker_solix_statistic_total_power" && s.4 == 1_000));
}

#[test]
fn battery_percent_is_a_whole_percent() {
    let value = |milli: i64| {
        let mut d = doc(vec![], 0);
        d.solarbank_info.total_battery_power_milli = milli;
        project(&"site".to_string(), &d)
            .iter()
            .find(|s| s.metric == Metric::BatteryPercent)
            .map(|s| (s.value, s.labels.unit.clone()))
            .unwrap()
    };
    assert_eq!(value(530), (53_000, "percent".to_string()));
    assert_eq!(value(1_000), (100_000, "percent".to_string()));
    assert_eq!(value(999), (99_000, "percent".to_string()));
    assert_eq!(value(-5), (0, "percent".to_string()));
    assert_eq!(value(i64::MAX).0, u32::MAX as i64 * 1000);
}

#[test]
fn gauge_names_and_help() {
    assert_eq!(Metric::BatteryPercent.name(), "anker_solix_solarbank_power_percent");
    assert_eq!(Metric::BatteryPercent.help(), "Total power of bank in percent (percent)");
    assert_eq!(Metric::GridToHomePower.name(), "anker_solix_grid_to_home_power");
    assert_eq!(Metric::StatisticPower.name(), "anker_solix_statistic_total_power");
}
