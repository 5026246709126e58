use std::collections::HashMap;
use std::collections::HashSet;

use ledger_replay::records::Record;
use ledger_replay::records::SCALE;
use ledger_replay::records::TxType;
use ledger_replay::transaction::AccountRecord;
use ledger_replay::transaction::chargeback;
use ledger_replay::transaction::deposit;
use ledger_replay::transaction::dispute;
use ledger_replay::transaction::dispute_key;
use ledger_replay::transaction::process_records;
use ledger_replay::transaction::resolve;
use ledger_replay::transaction::withdraw;

fn units(n: i64) -> i64 {
    n * SCALE
}

fn balance(n: i64) -> i128 {
    (n * SCALE) as i128
}

#[test]
fn deposit_existing_client() {
    let mut result: HashMap<u16, AccountRecord> = HashMap::new();
    result.insert(1, AccountRecord::default());
    let record = Record {
        tx_type: TxType::Deposit,
        client: 1,
        tx: 1,
        amount: Some(units(100)),
    };

    deposit(&mut result, &record);

    assert_eq!(result[&1].available, balance(100));
    assert_eq!(result[&1].total, balance(100));
}

#[test]
fn deposit_new_client() {
    let mut result: HashMap<u16, AccountRecord> = HashMap::new();
    let record = Record {
        tx_type: TxType::Deposit,
        client: 1,
        tx: 1,
        amount: Some(units(100)),
    };

    deposit(&mut result, &record);

    assert_eq!(result[&1].available, balance(100));
    assert_eq!(result[&1].total, balance(100));
}

#[test]
fn deposit_zero_amount() {
    let mut result: HashMap<u16, AccountRecord> = HashMap::new();
    let record = Record {
        tx_type: TxType::Deposit,
        client: 1,
        tx: 1,
        amount: Some(0),
    };

    deposit(&mut result, &record);

    assert_eq!(result.get(&1), None);
}

#[test]
fn deposit_negative_amount() {
    let mut result: HashMap<u16, AccountRecord> = HashMap::new();
    let record_positive_amount = Record {
        tx_type: TxType::Deposit,
        client: 1,
        tx: 1,
        amount: Some(units(100)),
    };

    deposit(&mut result, &record_positive_amount);
    assert_eq!(result[&1].available, balance(100));
    assert_eq!(result[&1].total, balance(100));

    let record_negative_amount = Record {
        tx_type: TxType::Deposit,
        client: 1,
        tx: 1,
        amount: Some(units(-100)),
    };

    deposit(&mut result, &record_negative_amount);
    assert_eq!(result[&1].available, balance(100));
    assert_eq!(result[&1].total, balance(100));
}

#[test]
fn multiple_transactions_same_id() {
    let records = vec![
        Record {
            tx_type: TxType::Deposit,
            client: 1,
            tx: 1,
            amount: Some(units(100)),
        },
        Record {
            tx_type: TxType::Withdrawal,
            client: 1,
            tx: 1,
            amount: Some(units(50)),
        },
    ];

    let processed_records = process_records(records);

    // The available amount and the total should stay at 100 units, since the
    // second (withdrawal) record reuses tx id 1 and is dropped.
    assert_eq!(processed_records[&1].available, balance(100));
    assert_eq!(processed_records[&1].total, balance(100));
}

#[test]
fn withdraw_sufficient_funds() {
    let mut result: HashMap<u16, AccountRecord> = HashMap::new();
    result.insert(
        1,
        AccountRecord {
            client: 1,
            available: balance(100),
            held: 0,
            total: balance(100),
            locked: false,
        },
    );
    let record = Record {
        tx_type: TxType::Withdrawal,
        client: 1,
        tx: 1,
        amount: Some(units(50)),
    };

    withdraw(&mut result, &record);

    assert_eq!(result[&1].available, balance(50));
    assert_eq!(result[&1].total, balance(50));
}

#[test]
fn withdraw_insufficient_funds() {
    let mut result: HashMap<u16, AccountRecord> = HashMap::new();
    result.insert(
        1,
        AccountRecord {
            client: 1,
            available: balance(100),
            held: 0,
            total: balance(100),
            locked: false,
        },
    );

    let record = Record {
        tx_type: TxType::Withdrawal,
        client: 1,
        tx: 1,
        amount: Some(units(150)),
    };

    withdraw(&mut result, &record);

    assert_eq!(result[&1].available, balance(100));
    assert_eq!(result[&1].total, balance(100));
}

#[test]
fn dispute_existing_transaction() {
    let mut result: HashMap<u16, AccountRecord> = HashMap::new();
    result.insert(
        1,
        AccountRecord {
            client: 1,
            available: balance(100),
            held: 0,
            total: balance(100),
            locked: false,
        },
    );

    let mut disputes: HashSet<u64> = HashSet::new();
    let mut processed_records: HashMap<u32, Record> = HashMap::new();
    processed_records.insert(
        1,
        Record {
            tx_type: TxType::Deposit,
            client: 1,
            tx: 1,
            amount: Some(units(50)),
        },
    );
    processed_records.insert(
        123,
        Record {
            tx_type: TxType::Deposit,
            client: 1,
            tx: 123,
            amount: Some(units(50)),
        },
    );

    let record = Record {
        tx_type: TxType::Dispute,
        client: 1,
        tx: 123,
        amount: None,
    };

    dispute(&mut result, &mut disputes, &processed_records, &record);

    assert_eq!(result[&1].available, balance(50));
    assert_eq!(result[&1].held, balance(50));
    assert_eq!(result[&1].total, balance(100));
    assert!(disputes.contains(&dispute_key(1, 123)));
}

#[test]
fn dispute_non_existing_transaction() {
    let mut result: HashMap<u16, AccountRecord> = HashMap::new();
    result.insert(
        1,
        AccountRecord {
            client: 1,
            available: balance(100),
            held: 0,
            total: balance(100),
            locked: false,
        },
    );

    let mut disputes: HashSet<u64> = HashSet::new();
    let processed_records: HashMap<u32, Record> = HashMap::new();

    let record = Record {
        tx_type: TxType::Dispute,
        client: 1,
        tx: 123,
        amount: None,
    };

    dispute(&mut result, &mut disputes, &processed_records, &record);

    assert_eq!(result[&1].available, balance(100));
    assert_eq!(result[&1].held, 0);
    assert_eq!(result[&1].total, balance(100));
    assert!(disputes.is_empty());
}

#[test]
fn resolve_existing_dispute() {
    let mut result: HashMap<u16, AccountRecord> = HashMap::new();
    result.insert(
        1,
        AccountRecord {
            client: 1,
            available: balance(50),
            held: balance(50),
            total: balance(100),
            locked: false,
        },
    );

    let mut disputes: HashSet<u64> = HashSet::new();
    disputes.insert(dispute_key(1, 123));

    let mut processed_records: HashMap<u32, Record> = HashMap::new();
    processed_records.insert(
        1,
        Record {
            tx_type: TxType::Deposit,
            client: 1,
            tx: 1,
            amount: Some(units(50)),
        },
    );
    processed_records.insert(
        123,
        Record {
            tx_type: TxType::Deposit,
            client: 1,
            tx: 123,
            amount: Some(units(50)),
        },
    );

    let record = Record {
        tx_type: TxType::Resolve,
        client: 1,
        tx: 123,
        amount: None,
    };

    resolve(&mut result, &mut disputes, &processed_records, &record);

    assert_eq!(result[&1].available, balance(100));
    assert_eq!(result[&1].held, 0);
    assert_eq!(result[&1].total, balance(100));
    assert!(!disputes.contains(&dispute_key(1, 123)));
}

#[test]
fn resolve_without_dispute() {
    let mut result: HashMap<u16, AccountRecord> = HashMap::new();
    let mut disputes: HashSet<u64> = HashSet::new();
    let mut processed_records: HashMap<u32, Record> = HashMap::new();

    let deposit_record = Record {
        tx_type: TxType::Deposit,
        client: 1,
        tx: 1,
        amount: Some(units(100)),
    };

    deposit(&mut result, &deposit_record);
    processed_records.insert(deposit_record.tx, deposit_record);

    resolve(
        &mut result,
        &mut disputes,
        &processed_records,
        &Record {
            tx_type: TxType::Resolve,
            client: 1,
            tx: 1,
            amount: None,
        },
    );

    assert_eq!(result[&1].available, balance(100));
    assert_eq!(result[&1].held, 0);
    assert_eq!(result[&1].total, balance(100));
}

#[test]
fn chargeback_existing_dispute() {
    let mut result: HashMap<u16, AccountRecord> = HashMap::new();
    result.insert(
        1,
        AccountRecord {
            client: 1,
            available: balance(50),
            held: balance(50),
            total: balance(100),
            locked: false,
        },
    );

    let mut disputes: HashSet<u64> = HashSet::new();
    disputes.insert(dispute_key(1, 123));

    let mut processed_records: HashMap<u32, Record> = HashMap::new();
    processed_records.insert(
        1,
        Record {
            tx_type: TxType::Deposit,
            client: 1,
            tx: 1,
            amount: Some(units(50)),
        },
    );
    processed_records.insert(
        123,
        Record {
            tx_type: TxType::Deposit,
            client: 1,
            tx: 123,
            amount: Some(units(50)),
        },
    );

    let record = Record {
        tx_type: TxType::Chargeback,
        client: 1,
        tx: 123,
        amount: None,
    };

    chargeback(&mut result, &mut disputes, &processed_records, &record);

    assert_eq!(result[&1].available, balance(50));
    assert_eq!(result[&1].held, 0);
    assert_eq!(result[&1].total, balance(50));
    assert!(result[&1].locked);
    assert!(!disputes.contains(&dispute_key(1, 123)));
}

#[test]
fn transactions_on_locked_account() {
    let mut result: HashMap<u16, AccountRecord> = HashMap::new();
    result.insert(
        1,
        AccountRecord {
            client: 1,
            available: 0,
            held: 0,
            total: 0,
            locked: true,
        },
    );

    let record = Record {
        tx_type: TxType::Deposit,
        client: 1,
        tx: 1,
        amount: Some(units(100)),
    };

    deposit(&mut result, &record);

    assert_eq!(result[&1].available, 0);
    assert_eq!(result[&1].total, 0);
}

#[test]
fn test_process_records() {
    let records = vec![
        Record {
            tx_type: TxType::Deposit,
            client: 1,
            tx: 1,
            amount: Some(units(200)),
        },
        Record {
            tx_type: TxType::Deposit,
            client: 2,
            tx: 2,
            amount: Some(units(250)),
        },
        Record {
            tx_type: TxType::Withdrawal,
            client: 2,
            tx: 3,
            amount: Some(0),
        },
        Record {
            tx_type: TxType::Dispute,
            client: 2,
            tx: 3,
            amount: None,
        },
        Record {
            tx_type: TxType::Chargeback,
            client: 2,
            tx: 3,
            amount: None,
        },
    ];

    let processed_records = process_records(records);
    let mut expected_processed_records = HashMap::new();

    expected_processed_records.insert(
        1,
        AccountRecord {
            client: 1,
            available: balance(200),
            held: 0,
            total: balance(200),
            locked: false,
        },
    );
    expected_processed_records.insert(
        2,
        AccountRecord {
            client: 2,
            available: balance(250),
            held: 0,
            total: balance(250),
            locked: true,
        },
    );

    assert_eq!(processed_records[&1], expected_processed_records[&1]);
    assert_eq!(processed_records[&2], expected_processed_records[&2]);
}
