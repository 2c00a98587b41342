use noten::{Identity, LedgerError, Metadata, TokenLedger};

fn owner(n: u8) -> Identity {
    Identity::account([n; 32])
}

fn fields(pairs: &[(&str, &str)]) -> Metadata {
    let mut metadata = Metadata::new();
    for (key, value) in pairs {
        metadata.insert(key.to_string(), value.to_string());
    }
    metadata
}

#[test]
fn a_new_ledger_is_empty() {
    let ledger = TokenLedger::new();
    assert_eq!(ledger.total_supply(), 0);
    assert_eq!(ledger.get_owner(0), Err(LedgerError::NotFound));
    assert_eq!(ledger.get_metadata(0), Err(LedgerError::NotFound));
    assert_eq!(ledger.get_by_owner_index(owner(1), 0), None);
    assert_eq!(ledger.balance_of(owner(1)), 0);
}

#[test]
fn numbers_count_up_from_zero_whoever_owns() {
    let mut ledger = TokenLedger::new();
    let owners = [1u8, 2, 1, 3, 3, 1, 2, 4, 1, 1];
    for (expected, n) in owners.iter().enumerate() {
        assert_eq!(ledger.total_supply(), expected as u64);
        let id = ledger.mint(owner(9), owner(*n), Metadata::new());
        assert_eq!(id, expected as u64);
    }
    assert_eq!(ledger.total_supply(), 10);
    assert_eq!(ledger.get_owner(10), Err(LedgerError::NotFound));
}

#[test]
fn each_owner_lists_its_records_in_order() {
    let mut ledger = TokenLedger::new();
    let owners = [1u8, 2, 1, 3, 3, 1, 2, 4, 1, 1];
    for n in owners {
        ledger.mint(owner(9), owner(n), Metadata::new());
    }
    let expected: [(u8, &[u64]); 5] =
        [(1, &[0, 2, 5, 8, 9]), (2, &[1, 6]), (3, &[3, 4]), (4, &[7]), (5, &[])];
    for (n, ids) in expected {
        assert_eq!(ledger.balance_of(owner(n)), ids.len());
        for (seq, id) in ids.iter().enumerate() {
            assert_eq!(ledger.get_by_owner_index(owner(n), seq as u32), Some(*id));
            assert_eq!(ledger.get_owner(*id), Ok(owner(n)));
        }
        assert_eq!(ledger.get_by_owner_index(owner(n), ids.len() as u32), None);
        assert_eq!(ledger.get_by_owner_index(owner(n), u32::MAX), None);
    }
}

#[test]
fn records_keep_their_fields() {
    let mut ledger = TokenLedger::new();
    let first = fields(&[("subject", "maths"), ("grade", "30")]);
    let second = fields(&[("origin", "fire")]);
    let a = ledger.mint(owner(9), owner(1), first.clone());
    let b = ledger.mint(owner(9), owner(2), second.clone());
    let c = ledger.mint(owner(9), owner(1), Metadata::new());
    assert_eq!((a, b, c), (0, 1, 2));
    assert_eq!(ledger.get_metadata(a), Ok(&first));
    assert_eq!(ledger.get_metadata(b), Ok(&second));
    assert_eq!(ledger.get_metadata(c), Ok(&Metadata::new()));
    assert_eq!(ledger.get_metadata(3), Err(LedgerError::NotFound));
    assert_eq!(ledger.get_metadata(u64::MAX), Err(LedgerError::NotFound));
    assert_eq!(ledger.get_owner(u64::MAX), Err(LedgerError::NotFound));
    assert_eq!(
        ledger.get_metadata(a).unwrap().to_pairs(),
        vec![
            ("grade".to_string(), "30".to_string()),
            ("subject".to_string(), "maths".to_string()),
        ]
    );
}

#[test]
fn the_caller_of_mint_is_not_examined() {
    let mut one = TokenLedger::new();
    let mut other = TokenLedger::new();
    one.mint(owner(1), owner(5), fields(&[("k", "v")]));
    other.mint(Identity::contract([0; 32]), owner(5), fields(&[("k", "v")]));
    assert_eq!(one, other);
}
