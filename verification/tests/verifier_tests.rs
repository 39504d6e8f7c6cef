use file_sink::burner::PendingBurns;
use file_sink::org::{CachedOrgClient, OrgRpc};
use file_sink::packets::{
    payload_size_to_dc, Balances, InvalidPacket, PacketReport, PacketWriter, ValidPacket,
    VerificationError, Verifier,
};

fn packet_report(oui: u64, timestamp: u64, payload_size: u32, payload_hash: Vec<u8>) -> PacketReport {
    PacketReport {
        gateway_timestamp_ms: timestamp,
        oui,
        payload_size,
        gateway: vec![],
        payload_hash,
    }
}

fn org_directory(entries: Vec<(u64, Vec<u8>)>) -> CachedOrgClient {
    CachedOrgClient::new(entries)
}

fn balances_of(entries: Vec<(Vec<u8>, u64)>) -> Balances {
    let mut balances = Balances::new();
    for (payer, amount) in entries {
        balances.set_balance(&payer, amount);
    }
    balances
}

fn enabled_flag(client: &CachedOrgClient, oui: u64) -> bool {
    client
        .enabled
        .iter()
        .find(|e| e.0 == oui)
        .map(|e| e.1)
        .unwrap_or(false)
}

#[test]
fn test_verifier() {
    let packets = vec![
        // Packets for first OUI
        packet_report(0, 0, 24, vec![1]),
        packet_report(0, 1, 48, vec![2]),
        packet_report(0, 2, 1, vec![3]),
        // Packets for second OUI
        packet_report(1, 0, 24, vec![4]),
        packet_report(1, 1, 48, vec![5]),
        packet_report(1, 1, 48, vec![5]),
        packet_report(1, 2, 1, vec![6]),
        // Packets for third OUI
        packet_report(2, 0, 24, vec![7]),
        packet_report(2, 0, 24, vec![7]),
    ];
    let orgs = org_directory(vec![(0, vec![0]), (1, vec![1]), (2, vec![2])]);
    let balances = balances_of(vec![(vec![0], 3), (vec![1], 4), (vec![2], 1)]);
    let mut valid_packets: Vec<ValidPacket> = Vec::new();
    let mut invalid_packets: Vec<InvalidPacket> = Vec::new();
    let mut burner = PendingBurns::new();
    let mut verifier = Verifier { debiter: balances, config_server: orgs };

    verifier
        .verify(&mut burner, packets, &mut valid_packets, &mut invalid_packets, 0)
        .unwrap();

    let valid: Vec<(u32, Vec<u8>)> =
        valid_packets.iter().map(|p| (p.payload_size, p.payload_hash.clone())).collect();
    assert_eq!(
        valid,
        vec![
            // First two packets for OUI #0 are valid
            (24, vec![1]),
            (48, vec![2]),
            // All packets for OUI #1 are valid
            (24, vec![4]),
            (48, vec![5]),
            (1, vec![6]),
            // All packets for OUI #2 are valid
            (24, vec![7]),
        ]
    );

    let invalid: Vec<(u32, Vec<u8>)> =
        invalid_packets.iter().map(|p| (p.payload_size, p.payload_hash.clone())).collect();
    assert_eq!(invalid, vec![(1, vec![3])]);

    // Only org #0 ends up disabled:
    assert_eq!(enabled_flag(&verifier.config_server, 0), false);
    assert_eq!(enabled_flag(&verifier.config_server, 1), true);
    assert_eq!(enabled_flag(&verifier.config_server, 2), true);
}

#[test]
fn duplicate_triple_is_classified_once() {
    let packets = vec![
        packet_report(7, 42, 24, vec![9]),
        packet_report(7, 42, 24, vec![9]),
        packet_report(7, 42, 24, vec![9]),
        packet_report(7, 42, 24, vec![9]),
        packet_report(7, 42, 24, vec![9]),
    ];
    let mut verifier = Verifier {
        debiter: balances_of(vec![(vec![7], 100)]),
        config_server: org_directory(vec![(7, vec![7])]),
    };
    let mut valid: Vec<ValidPacket> = Vec::new();
    let mut invalid: Vec<InvalidPacket> = Vec::new();
    let mut burner = PendingBurns::new();
    verifier.verify(&mut burner, packets, &mut valid, &mut invalid, 0).unwrap();
    assert_eq!(valid.len() + invalid.len(), 1);
    // Only one debit quantum was charged for the five copies.
    assert_eq!(burner.amount_of(&vec![7]), 1);
}

#[test]
fn debit_accounting_moves_balance_into_pending() {
    let payer = vec![1u8, 2, 3];
    let packets = vec![
        packet_report(5, 1, 48, vec![1]),
        packet_report(5, 2, 240, vec![2]),
        packet_report(5, 3, 1, vec![3]),
    ];
    let mut verifier = Verifier {
        debiter: balances_of(vec![(payer.clone(), 50)]),
        config_server: org_directory(vec![(5, payer.clone())]),
    };
    let mut valid: Vec<ValidPacket> = Vec::new();
    let mut invalid: Vec<InvalidPacket> = Vec::new();
    let mut burner = PendingBurns::new();
    verifier.verify(&mut burner, packets, &mut valid, &mut invalid, 77).unwrap();
    // Debits: 2 + 10 + 1 credits, all sufficient.
    assert_eq!(valid.len(), 3);
    assert_eq!(burner.amount_of(&payer), 13);
    assert_eq!(verifier.debiter.debit_if_sufficient(&payer, 37), Some(true));
    assert_eq!(verifier.debiter.debit_if_sufficient(&payer, 38), Some(false));
}

#[test]
fn unknown_org_aborts_with_config_error() {
    let packets = vec![packet_report(99, 1, 24, vec![1])];
    let mut verifier =
        Verifier { debiter: balances_of(vec![]), config_server: org_directory(vec![]) };
    let mut valid: Vec<ValidPacket> = Vec::new();
    let mut invalid: Vec<InvalidPacket> = Vec::new();
    let mut burner = PendingBurns::new();
    let r = verifier.verify(&mut burner, packets, &mut valid, &mut invalid, 0);
    assert_eq!(r, Err(VerificationError::ConfigError));
}

#[test]
fn missing_payer_account_aborts_with_debit_error() {
    let packets = vec![packet_report(4, 1, 24, vec![1])];
    let mut verifier = Verifier {
        debiter: balances_of(vec![]),
        config_server: org_directory(vec![(4, vec![4])]),
    };
    let mut valid: Vec<ValidPacket> = Vec::new();
    let mut invalid: Vec<InvalidPacket> = Vec::new();
    let mut burner = PendingBurns::new();
    let r = verifier.verify(&mut burner, packets, &mut valid, &mut invalid, 0);
    assert_eq!(r, Err(VerificationError::DebitError));
}

#[test]
fn payload_size_to_dc_charges_per_started_quantum() {
    assert_eq!(payload_size_to_dc(0), 1);
    assert_eq!(payload_size_to_dc(1), 1);
    assert_eq!(payload_size_to_dc(23), 1);
    assert_eq!(payload_size_to_dc(24), 1);
    assert_eq!(payload_size_to_dc(25), 1);
    assert_eq!(payload_size_to_dc(48), 2);
    assert_eq!(payload_size_to_dc(49), 2);
    assert_eq!(payload_size_to_dc(240), 10);
}

#[test]
fn enable_and_disable_are_edge_triggered() {
    let mut client = org_directory(vec![(1, vec![1])]);
    // Disabling an unseen org is no transition: no call goes out.
    assert!(!client.disable_org(1));
    assert!(client.enable_org(1));
    assert!(!client.enable_org(1));
    assert!(!client.enable_org(1));
    assert!(client.disable_org(1));
    assert!(!client.disable_org(1));
    assert!(client.enable_org(1));
    assert_eq!(
        client.rpc_log,
        vec![OrgRpc::Enable(1), OrgRpc::Disable(1), OrgRpc::Enable(1)]
    );
}

#[test]
fn fetch_org_caches_the_directory_answer() {
    let mut client = org_directory(vec![(8, vec![8, 8])]);
    assert_eq!(client.fetch_org(8), Some(vec![8, 8]));
    assert_eq!(client.cache.len(), 1);
    assert_eq!(client.fetch_org(8), Some(vec![8, 8]));
    assert_eq!(client.cache.len(), 1);
    assert_eq!(client.fetch_org(9), None);
}

#[test]
fn vectors_are_packet_writers() {
    let mut out: Vec<ValidPacket> = Vec::new();
    let packet = ValidPacket { payload_size: 24, gateway: vec![], payload_hash: vec![1] };
    assert!(PacketWriter::write(&mut out, packet).is_ok());
    assert_eq!(out.len(), 1);
    assert_eq!(out[0].payload_hash, vec![1]);
}
