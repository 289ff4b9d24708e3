use vstd::prelude::*;

verus! {

// Vendor documents, already decoded. Integer fields are whole units; fields
// that the vendor sends as decimals are held in thousandths.

/// The `data` part of a successful login reply.
pub struct Login {
    pub auth_token: String,
    pub token_expires_at: u64,
    pub user_id: String,
}

/// One battery unit of a site.
pub struct Solarbank {
    pub battery_power: u32,
    pub charging_power: u32,
    pub output_power: u32,
    pub photovoltaic_power: u32,
    pub power_unit: String,
    pub device_sn: String,
}

pub struct SolarbankInfo {
    pub solar_power_1: u32,
    pub solar_power_2: u32,
    pub solar_power_3: u32,
    pub solar_power_4: u32,
    pub solarbank_list: Vec<Solarbank>,
    pub to_home_load: u32,
    /// Charge level as a fraction, in thousandths.
    pub total_battery_power_milli: i64,
    pub total_charging_power: u32,
    /// In thousandths of the power unit.
    pub total_output_power_milli: i64,
    pub total_photovoltaic_power: u32,
    pub power_unit: String,
}

/// A cumulative figure: `kind` 1 is energy produced, 2 CO2 saved, 3 money saved.
pub struct Statistic {
    /// In thousandths of `unit`.
    pub total_milli: i64,
    pub kind: u32,
    pub unit: String,
}

pub struct GridInfo {
    pub grid_to_home_power: u32,
    pub photovoltaic_to_grid_power: u32,
}

pub struct HomeInfo {
    /// In thousandths of the power unit.
    pub charging_power_milli: i64,
    pub power_unit: String,
}

/// The telemetry of one site.
pub struct ScenInfo {
    pub grid_info: GridInfo,
    pub home_info: HomeInfo,
    pub solarbank_info: SolarbankInfo,
    pub statistics: Vec<Statistic>,
    pub home_load_power: u32,
    pub other_loads_power: u32,
}

pub struct SiteHomepage {
    pub site_list: Vec<SiteList>,
}

pub struct SiteList {
    pub site_id: String,
    pub site_name: String,
}

} // verus!
