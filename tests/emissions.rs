use std::collections::HashMap;

use lending_pool::emissions::{
    set_pool_emissions, update_emissions, EmissionStore, PoolEmissionConfig, ReserveEmissionMetadata,
    ReserveEmissionsConfig, ReserveEmissionsData,
};
use lending_pool::errors::PoolError;
use lending_pool::reserve::{Reserve, ReserveConfig, ReserveData};
use lending_pool::reserve_usage::ReserveUsage;

fn setup_reserve(asset: u64) -> Reserve {
    Reserve {
        asset,
        config: ReserveConfig {
            b_token: asset + 100,
            d_token: asset + 200,
            decimals: 7,
            c_factor: 0,
            l_factor: 0,
            util: 0_7500000,
            r_one: 0_0500000,
            r_two: 0_5000000,
            r_three: 1_5000000,
            reactivity: 0_000_010_000,
            index: 0,
        },
        data: ReserveData {
            b_rate: 1_000_000_000,
            d_rate: 1_000_000_000,
            ir_mod: 1_000_000_000,
            b_supply: 100_0000000,
            d_supply: 50_0000000,
            last_block: 100,
        },
    }
}

fn store(pool_emission_config: PoolEmissionConfig, pool_emissions: HashMap<u32, u64>) -> EmissionStore {
    EmissionStore { pool_config: pool_emission_config, pool_emissions, configs: HashMap::new(), data: HashMap::new() }
}

const NOW: u64 = 1500000000;

#[test]
fn test_update_emissions_no_emitted_reserves_does_nothing() {
    let next_exp = 1500604800;
    let pool_eps = 0_5000000;
    let pool_emission_config = PoolEmissionConfig { last_time: 0, config: 0 };
    let reserves = vec![setup_reserve(1), setup_reserve(2)];
    let mut storage = store(pool_emission_config, HashMap::new());

    update_emissions(&reserves, &mut storage, NOW, next_exp, pool_eps).unwrap();

    assert_eq!(storage.pool_config.last_time, next_exp);
    assert!(storage.configs.get(&ReserveUsage::liability_key(0)).is_none());
    assert!(storage.configs.get(&ReserveUsage::supply_key(0)).is_none());
    assert!(storage.configs.get(&ReserveUsage::liability_key(1)).is_none());
    assert!(storage.configs.get(&ReserveUsage::supply_key(1)).is_none());
}

#[test]
fn test_update_emissions_sets_reserve_emission_when_emitting_both() {
    let next_exp = 1500604800;
    let pool_eps = 0_5000000;
    let pool_emission_config = PoolEmissionConfig { last_time: 0, config: 0b000_011_000 };
    let mut pool_emissions = HashMap::new();
    pool_emissions.insert(ReserveUsage::liability_key(1), 0_7500000);
    pool_emissions.insert(ReserveUsage::supply_key(1), 0_2500000);
    let reserves = vec![setup_reserve(1), setup_reserve(2), setup_reserve(3)];
    let mut storage = store(pool_emission_config, pool_emissions);

    let result = update_emissions(&reserves, &mut storage, NOW, next_exp, pool_eps).unwrap();

    assert_eq!(storage.pool_config.last_time, next_exp);
    assert_eq!(result, next_exp);
    assert!(storage.configs.get(&ReserveUsage::liability_key(0)).is_none());
    assert!(storage.configs.get(&ReserveUsage::supply_key(0)).is_none());
    assert!(storage.configs.get(&ReserveUsage::liability_key(2)).is_none());
    assert!(storage.configs.get(&ReserveUsage::supply_key(2)).is_none());

    let r_1_l_config = storage.configs.get(&ReserveUsage::liability_key(1)).unwrap();
    let r_1_s_config = storage.configs.get(&ReserveUsage::supply_key(1)).unwrap();
    assert_eq!(r_1_l_config.expiration, next_exp);
    assert_eq!(r_1_l_config.eps, 0_3750000);
    assert_eq!(r_1_s_config.expiration, next_exp);
    assert_eq!(r_1_s_config.eps, 0_1250000);

    let r_1_l_data = storage.data.get(&ReserveUsage::liability_key(1)).unwrap();
    let r_1_s_data = storage.data.get(&ReserveUsage::supply_key(1)).unwrap();
    assert_eq!(r_1_l_data.index, 0);
    assert_eq!(r_1_l_data.last_time, 1500000000);
    assert_eq!(r_1_s_data.index, 0);
    assert_eq!(r_1_s_data.last_time, 1500000000);
}

#[test]
fn test_update_emissions_sets_reserve_emission_config_and_data() {
    let next_exp = 1500604800;
    let pool_eps = 0_5000000;
    let pool_emission_config = PoolEmissionConfig { last_time: 0, config: 0b010_000_001 };
    let mut pool_emissions = HashMap::new();
    pool_emissions.insert(ReserveUsage::liability_key(0), 0_2500000);
    pool_emissions.insert(ReserveUsage::supply_key(2), 0_7500000);
    let reserves = vec![setup_reserve(1), setup_reserve(2), setup_reserve(3)];
    let mut storage = store(pool_emission_config, pool_emissions);
    storage.configs.insert(
        ReserveUsage::liability_key(0),
        ReserveEmissionsConfig { eps: 0_2000000, expiration: 1500000100 },
    );
    storage.data.insert(ReserveUsage::liability_key(0), ReserveEmissionsData { index: 100, last_time: 1499980000 });
    storage.configs.insert(
        ReserveUsage::supply_key(2),
        ReserveEmissionsConfig { eps: 0_3000000, expiration: 1500000100 },
    );
    storage.data.insert(ReserveUsage::supply_key(2), ReserveEmissionsData { index: 500, last_time: 1499980000 });

    let result = update_emissions(&reserves, &mut storage, NOW, next_exp, pool_eps).unwrap();

    assert_eq!(storage.pool_config.last_time, next_exp);
    assert_eq!(result, next_exp);
    assert!(storage.configs.get(&ReserveUsage::supply_key(0)).is_none());
    assert!(storage.configs.get(&ReserveUsage::liability_key(1)).is_none());
    assert!(storage.configs.get(&ReserveUsage::supply_key(1)).is_none());
    assert!(storage.configs.get(&ReserveUsage::liability_key(2)).is_none());

    let r_0_l_config = storage.configs.get(&ReserveUsage::liability_key(0)).unwrap();
    let r_2_s_config = storage.configs.get(&ReserveUsage::supply_key(2)).unwrap();
    assert_eq!(r_0_l_config.expiration, next_exp);
    assert_eq!(r_0_l_config.eps, 0_1250000);
    assert_eq!(r_2_s_config.expiration, next_exp);
    assert_eq!(r_2_s_config.eps, 0_3750000);

    let r_1_l_data = storage.data.get(&ReserveUsage::liability_key(0)).unwrap();
    let r_1_s_data = storage.data.get(&ReserveUsage::supply_key(2)).unwrap();
    assert_eq!(r_1_l_data.index, 800000100);
    assert_eq!(r_1_l_data.last_time, 1500000000);
    assert_eq!(r_1_s_data.index, 600000500);
    assert_eq!(r_1_s_data.last_time, 1500000000);
}

#[test]
fn test_update_emissions_panics_if_already_updated() {
    let next_exp = 1500604800;
    let pool_eps = 0_5000000;
    let pool_emission_config = PoolEmissionConfig { last_time: 1500604800, config: 0b000_011_000 };
    let mut pool_emissions = HashMap::new();
    pool_emissions.insert(ReserveUsage::liability_key(1), 0_7500000);
    pool_emissions.insert(ReserveUsage::supply_key(1), 0_2500000);
    let reserves = vec![setup_reserve(1), setup_reserve(2), setup_reserve(3)];
    let mut storage = store(pool_emission_config, pool_emissions);

    let result = update_emissions(&reserves, &mut storage, NOW, next_exp, pool_eps);
    match result {
        Ok(_) => assert!(false),
        Err(err) => match err {
            PoolError::BadRequest => assert!(true),
            _ => assert!(false),
        },
    }
}

fn metadata(res_index: u32, res_type: u32, share: u64) -> ReserveEmissionMetadata {
    ReserveEmissionMetadata { res_index, res_type, share }
}

fn preset_store() -> EmissionStore {
    let pool_emission_config = PoolEmissionConfig { last_time: 1000, config: 0b000_011_000 };
    let mut pool_emissions = HashMap::new();
    pool_emissions.insert(2, 0_7500000);
    store(pool_emission_config, pool_emissions)
}

#[test]
fn test_set_pool_emissions() {
    let mut storage = preset_store();
    let res_emission_metadata = vec![metadata(0, 1, 0_3500000), metadata(3, 0, 0_6500000)];

    set_pool_emissions(&mut storage, &res_emission_metadata).unwrap();

    assert_eq!(storage.pool_config.last_time, 1000);
    assert_eq!(storage.pool_config.config, 0b001_000_000_010);
    assert_eq!(storage.pool_emissions.len(), 2);
    assert_eq!(*storage.pool_emissions.get(&ReserveUsage::supply_key(0)).unwrap(), 0_3500000);
    assert_eq!(*storage.pool_emissions.get(&ReserveUsage::liability_key(3)).unwrap(), 0_6500000);
}

#[test]
fn test_set_pool_emissions_panics_if_over_100() {
    let mut storage = preset_store();
    let res_emission_metadata = vec![metadata(0, 1, 0_3500000), metadata(3, 0, 0_6500001)];

    let result = set_pool_emissions(&mut storage, &res_emission_metadata);
    match result {
        Ok(_) => assert!(false),
        Err(err) => match err {
            PoolError::BadRequest => assert!(true),
            _ => assert!(false),
        },
    }
}

#[test]
fn test_set_pool_emissions_ok_if_under_100() {
    let mut storage = preset_store();
    let res_emission_metadata = vec![metadata(0, 1, 0_3400000), metadata(3, 0, 0_6500000)];

    set_pool_emissions(&mut storage, &res_emission_metadata).unwrap();

    assert_eq!(storage.pool_config.last_time, 1000);
    assert_eq!(storage.pool_config.config, 0b001_000_000_010);
    assert_eq!(storage.pool_emissions.len(), 2);
    assert_eq!(*storage.pool_emissions.get(&ReserveUsage::supply_key(0)).unwrap(), 0_3400000);
    assert_eq!(*storage.pool_emissions.get(&ReserveUsage::liability_key(3)).unwrap(), 0_6500000);
}

#[test]
fn set_pool_emissions_refusal_keeps_old_shares() {
    let mut storage = preset_store();
    let res_emission_metadata = vec![metadata(1, 0, 1_0000001)];
    assert_eq!(set_pool_emissions(&mut storage, &res_emission_metadata), Err(PoolError::BadRequest));
    assert_eq!(storage.pool_config.config, 0b000_011_000);
    assert_eq!(*storage.pool_emissions.get(&2).unwrap(), 0_7500000);
}

#[test]
fn update_emissions_stops_accruing_at_expiration() {
    let reserves = vec![setup_reserve(1)];
    let mut pool_emissions = HashMap::new();
    pool_emissions.insert(ReserveUsage::supply_key(0), 1_0000000);
    let mut storage = store(PoolEmissionConfig { last_time: 10, config: 0b10 }, pool_emissions);
    storage.configs.insert(ReserveUsage::supply_key(0), ReserveEmissionsConfig { eps: 1_0000000, expiration: 1000 });
    storage.data.insert(ReserveUsage::supply_key(0), ReserveEmissionsData { index: 0, last_time: 900 });

    update_emissions(&reserves, &mut storage, 5000, 9000, 2_0000000).unwrap();

    // 100 seconds at 1 token a second over 100 b-tokens
    let data = storage.data.get(&ReserveUsage::supply_key(0)).unwrap();
    assert_eq!(data.index, 100 * 1_0000000 * 1_0000000 / 100_0000000);
    assert_eq!(data.last_time, 5000);
    let config = storage.configs.get(&ReserveUsage::supply_key(0)).unwrap();
    assert_eq!(config.eps, 2_0000000);
    assert_eq!(config.expiration, 9000);
}
