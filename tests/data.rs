use sn_section::data_manager::{DataManager, DmError, Payload, PayloadTypeTag, PutOrder, PARALLELISM};
use sn_section::destination::{DestinationElder, Dispatch, Request, Response, Route, Rpc};
use sn_section::events::adults_changed;
use sn_section::name::{closer_to_target, Name};
use sn_section::replicated::Chunk;

fn by_distance(nodes: &[Name], target: &Name) -> Vec<Name> {
    let mut v = nodes.to_vec();
    v.sort_by(|x, y| {
        if closer_to_target(x, y, target) {
            std::cmp::Ordering::Less
        } else if x == y {
            std::cmp::Ordering::Equal
        } else {
            std::cmp::Ordering::Greater
        }
    });
    v
}

#[test]
fn handle_put_get() {
    let mut data_manager = DataManager::new();
    let value: Vec<u8> = (0..1024u32).map(|i| (i * 7 % 251) as u8).collect();
    let name = Chunk::new(value).name();
    let mut nodes_in_table: Vec<Name> = (1..=8u8).map(|i| Name::new(u128::from_be_bytes([i; 16]), u128::from_be_bytes([i; 16]))).collect();
    let expected = by_distance(&nodes_in_table, &name);
    let payload = Payload { tag: PayloadTypeTag::ImmutableData, name };
    let x = data_manager.handle_put(payload, &mut nodes_in_table).unwrap();
    assert_eq!(nodes_in_table, expected);
    assert_eq!(x.len(), PARALLELISM);
    assert_eq!(x[0], nodes_in_table[0]);
    assert_eq!(x[1], nodes_in_table[1]);
    assert_eq!(x[2], nodes_in_table[2]);
    assert_eq!(x[3], nodes_in_table[3]);
    let x = data_manager.handle_get(&name).unwrap();
    assert_eq!(x.len(), PARALLELISM);
    assert_eq!(x[0], nodes_in_table[0]);
    assert_eq!(x[1], nodes_in_table[1]);
    assert_eq!(x[2], nodes_in_table[2]);
    assert_eq!(x[3], nodes_in_table[3]);
    let before = nodes_in_table.clone();
    assert_eq!(data_manager.handle_put(payload, &mut nodes_in_table), Err(DmError::Abort));
    assert_eq!(
        data_manager.handle_put(Payload { tag: PayloadTypeTag::Other, name }, &mut nodes_in_table),
        Err(DmError::InvalidRequest)
    );
    assert_eq!(nodes_in_table, before);
    assert_eq!(data_manager.handle_get(&Name::new(0, 0)), Err(DmError::NoData));
}

#[test]
fn put_response_replicates_to_close_group() {
    let mut dm = DataManager::new();
    let name = Name::new(0, 0);
    let mut nodes: Vec<Name> = (1..=4u128).rev().map(|i| Name::new(0, i)).collect();
    let payload = Payload { tag: PayloadTypeTag::ImmutableData, name };
    dm.handle_put(payload, &mut nodes).unwrap();
    assert_eq!(nodes, (1..=4u128).map(|i| Name::new(0, i)).collect::<Vec<_>>());
    dm.retrieve_all_and_reset(&vec![Name::new(0, 9), Name::new(0, 5), Name::new(0, 1)]);
    // An error response changes nothing.
    assert_eq!(dm.handle_put_response(Err(()), &Name::new(0, 1)), None);
    // A holder gave the data back: four minus one is still enough.
    assert_eq!(dm.handle_put_response(Ok(payload), &Name::new(0, 1)), None);
    assert_eq!(dm.handle_get(&name).unwrap().len(), 3);
    // Below three holders the closest member of the close group takes a copy.
    assert_eq!(
        dm.handle_put_response(Ok(payload), &Name::new(0, 2)),
        Some(PutOrder { destination: Name::new(0, 1), name })
    );
    assert_eq!(dm.handle_get(&name).unwrap(), vec![Name::new(0, 3), Name::new(0, 4), Name::new(0, 1)]);
    // Backup copies are not copied again.
    let backup = Payload { tag: PayloadTypeTag::ImmutableDataBackup, name };
    assert_eq!(dm.handle_put_response(Ok(backup), &Name::new(0, 3)), None);
    assert_eq!(
        dm.handle_get_response(payload),
        Some(PutOrder { destination: Name::new(0, 5), name })
    );
    assert_eq!(dm.handle_get_response(backup), None);
}

#[test]
fn adults_changed_reports_differences() {
    let old = vec![Name::new(1, 0), Name::new(2, 0), Name::new(3, 0)];
    let new = vec![Name::new(2, 0), Name::new(3, 0), Name::new(4, 0)];
    let c = adults_changed(&old, &new).unwrap();
    assert_eq!(c.added, vec![Name::new(4, 0)]);
    assert_eq!(c.removed, vec![Name::new(1, 0)]);
    assert_eq!(c.remaining, vec![Name::new(2, 0), Name::new(3, 0)]);
    assert!(adults_changed(&old, &old).is_none());
}

#[test]
fn destination_elder_dispatch() {
    let mut elder = DestinationElder::new(Name::new(7, 7));
    let chunk = Name::new(5, 5);
    let client = Name::new(1, 1);
    let other = Name::new(2, 2);
    let put_from_client = Rpc::Request { request: Request::PutIData(chunk), requester: client, message_id: 1 };
    assert_eq!(
        elder.handle_vault_message(other, put_from_client),
        Some(Dispatch { route: Route::IDataHandler, client, message_id: 1 })
    );
    assert_eq!(
        elder.handle_vault_message(chunk, put_from_client),
        Some(Dispatch { route: Route::IDataHolder, client, message_id: 1 })
    );
    let get_at_holder = Rpc::Request { request: Request::GetIData(chunk), requester: other, message_id: 3 };
    assert_eq!(elder.handle_vault_message(chunk, get_at_holder), None);
    elder.record_op(3, client);
    assert_eq!(
        elder.handle_vault_message(chunk, get_at_holder),
        Some(Dispatch { route: Route::IDataHolder, client, message_id: 3 })
    );
    assert_eq!(elder.client_id(3), Some(client));
    let mdata = Rpc::Request { request: Request::MData, requester: client, message_id: 4 };
    assert_eq!(elder.handle_vault_message(other, mdata).map(|d| d.route), Some(Route::MDataHandler));
    let coins = Rpc::Request { request: Request::TransferCoins, requester: client, message_id: 5 };
    assert_eq!(elder.handle_vault_message(other, coins), None);
    let resp = Rpc::Response { response: Response::Mutation, message_id: 6 };
    assert_eq!(elder.handle_vault_message(other, resp).map(|d| d.route), Some(Route::IDataHandler));
    let bad = Rpc::Response { response: Response::Other, message_id: 7 };
    assert_eq!(elder.handle_vault_message(other, bad), None);
}
