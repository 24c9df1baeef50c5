use pdslib::budget::hashmap_filter_storage::HashMapFilterStorage;
use pdslib::budget::pure_dp_filter::{PureDPBudget, PureDPBudgetFilter};
use pdslib::budget::traits::{Filter, FilterStatus, FilterStorage};
use pdslib::error::PdsError;
use pdslib::mechanisms::UNIT;

#[test]
fn test_pure_dp_budget_filter() {
    let mut filter = PureDPBudgetFilter::new(PureDPBudget::Epsilon(UNIT)).unwrap();
    assert_eq!(
        filter
            .check_and_consume(&PureDPBudget::Epsilon(UNIT / 2))
            .unwrap(),
        FilterStatus::Continue
    );
    assert_eq!(
        filter
            .check_and_consume(&PureDPBudget::Epsilon(6 * UNIT / 10))
            .unwrap(),
        FilterStatus::OutOfBudget
    );
}

#[test]
fn test_hash_map_filter_storage() {
    let mut storage: HashMapFilterStorage<usize, PureDPBudgetFilter, PureDPBudget> =
        HashMapFilterStorage::new();
    storage.new_filter(1, PureDPBudget::Epsilon(UNIT)).unwrap();
    assert_eq!(
        storage
            .check_and_consume(&1, &PureDPBudget::Epsilon(UNIT / 2))
            .unwrap(),
        FilterStatus::Continue
    );
    assert_eq!(
        storage
            .check_and_consume(&1, &PureDPBudget::Epsilon(6 * UNIT / 10))
            .unwrap(),
        FilterStatus::OutOfBudget
    );

    // Filter 3 does not exist
    assert!(storage
        .check_and_consume(&3, &PureDPBudget::Epsilon(UNIT / 5))
        .is_err());
}

#[test]
fn filter_arithmetic_scenario() {
    let mut filter = PureDPBudgetFilter::new(PureDPBudget::Epsilon(UNIT)).unwrap();
    let status = filter
        .check_and_consume(&PureDPBudget::Epsilon(UNIT / 2))
        .unwrap();
    assert_eq!(status, FilterStatus::Continue);
    assert_eq!(
        filter.get_remaining_budget().unwrap(),
        PureDPBudget::Epsilon(UNIT / 2)
    );
    let status = filter
        .check_and_consume(&PureDPBudget::Epsilon(6 * UNIT / 10))
        .unwrap();
    assert_eq!(status, FilterStatus::OutOfBudget);
    assert_eq!(
        filter.get_remaining_budget().unwrap(),
        PureDPBudget::Epsilon(UNIT / 2)
    );
}

#[test]
fn granted_debits_add_up_to_what_was_spent() {
    let capacity = 5 * UNIT;
    let mut filter = PureDPBudgetFilter::new(PureDPBudget::Epsilon(capacity)).unwrap();
    let requests = [2 * UNIT, 4 * UNIT, UNIT, 3 * UNIT, 2 * UNIT, UNIT];
    let mut granted = 0;
    for q in requests {
        if filter.check_and_consume(&PureDPBudget::Epsilon(q)).unwrap() == FilterStatus::Continue
        {
            granted += q;
        }
    }
    assert!(granted <= capacity);
    assert_eq!(granted, 5 * UNIT);
    assert_eq!(
        filter.get_remaining_budget().unwrap(),
        PureDPBudget::Epsilon(capacity - granted)
    );
}

#[test]
fn out_of_budget_leaves_remaining_unchanged() {
    let mut filter = PureDPBudgetFilter::new(PureDPBudget::Epsilon(UNIT)).unwrap();
    for _ in 0..3 {
        let status = filter
            .check_and_consume(&PureDPBudget::Epsilon(2 * UNIT))
            .unwrap();
        assert_eq!(status, FilterStatus::OutOfBudget);
        assert_eq!(
            filter.get_remaining_budget().unwrap(),
            PureDPBudget::Epsilon(UNIT)
        );
    }
}

#[test]
fn infinite_requests() {
    let mut infinite = PureDPBudgetFilter::new(PureDPBudget::Infinite).unwrap();
    for _ in 0..2 {
        assert_eq!(
            infinite.check_and_consume(&PureDPBudget::Infinite).unwrap(),
            FilterStatus::Continue
        );
    }
    assert_eq!(
        infinite.get_remaining_budget().unwrap(),
        PureDPBudget::Infinite
    );

    let mut finite = PureDPBudgetFilter::new(PureDPBudget::Epsilon(u64::MAX)).unwrap();
    assert_eq!(
        finite.check_and_consume(&PureDPBudget::Infinite).unwrap(),
        FilterStatus::OutOfBudget
    );
    assert_eq!(
        finite.get_remaining_budget().unwrap(),
        PureDPBudget::Epsilon(u64::MAX)
    );
}

#[test]
fn whole_capacity_can_be_spent() {
    let mut filter = PureDPBudgetFilter::new(PureDPBudget::Epsilon(3 * UNIT)).unwrap();
    assert_eq!(
        filter
            .check_and_consume(&PureDPBudget::Epsilon(3 * UNIT))
            .unwrap(),
        FilterStatus::Continue
    );
    assert_eq!(
        filter.get_remaining_budget().unwrap(),
        PureDPBudget::Epsilon(0)
    );
    assert_eq!(
        filter.check_and_consume(&PureDPBudget::Epsilon(0)).unwrap(),
        FilterStatus::Continue
    );
    assert_eq!(
        filter.check_and_consume(&PureDPBudget::Epsilon(1)).unwrap(),
        FilterStatus::OutOfBudget
    );
}

#[test]
fn storage_errors_on_missing_filters() {
    let mut storage: HashMapFilterStorage<usize, PureDPBudgetFilter, PureDPBudget> =
        HashMapFilterStorage::new();
    assert_eq!(storage.is_initialized(&7).unwrap(), false);
    assert_eq!(
        storage.check_and_consume(&7, &PureDPBudget::Epsilon(0)),
        Err(PdsError::FilterNotInitialized)
    );
    assert_eq!(
        storage.get_remaining_budget(&7),
        Err(PdsError::FilterDoesNotExist)
    );
    storage.new_filter(7, PureDPBudget::Epsilon(UNIT)).unwrap();
    assert_eq!(storage.is_initialized(&7).unwrap(), true);
    assert_eq!(
        storage.get_remaining_budget(&7),
        Ok(PureDPBudget::Epsilon(UNIT))
    );
}

#[test]
fn new_filter_replaces_existing_one() {
    let mut storage: HashMapFilterStorage<usize, PureDPBudgetFilter, PureDPBudget> =
        HashMapFilterStorage::new();
    storage.new_filter(1, PureDPBudget::Epsilon(UNIT)).unwrap();
    storage
        .check_and_consume(&1, &PureDPBudget::Epsilon(UNIT))
        .unwrap();
    storage.new_filter(1, PureDPBudget::Infinite).unwrap();
    assert_eq!(
        storage.get_remaining_budget(&1),
        Ok(PureDPBudget::Infinite)
    );
}
