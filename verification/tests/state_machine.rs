use statusview::{
    gate, view_kind, APIErr, LazyLoad, RemoteResource, ResourceState, TriggerCell, ViewKind,
};

#[test]
fn trigger_cell_starts_disarmed_at_zero() {
    let cell = TriggerCell::new();
    assert!(!cell.armed);
    assert_eq!(cell.generation, 0);
}

#[test]
fn arm_increments_generation_every_time() {
    let mut cell = TriggerCell::new();
    cell.arm();
    assert!(cell.armed);
    assert_eq!(cell.generation, 1);
    cell.arm();
    cell.arm();
    assert_eq!(cell.generation, 3);
}

#[test]
fn reset_disarms_without_new_generation() {
    let mut cell = TriggerCell::new();
    cell.arm();
    cell.arm();
    cell.reset();
    assert!(!cell.armed);
    assert_eq!(cell.generation, 2);
}

#[test]
fn lifecycle_not_triggered_then_pending_then_resolved() {
    // One full cycle: fresh, armed, resolved for the armed generation.
    let mut res: RemoteResource<u32> = RemoteResource::new();
    assert_eq!(*res.current(), ResourceState::NotTriggered);
    res.arm();
    assert_eq!(*res.current(), ResourceState::Pending(1));
    res.resolve(1, Ok(7));
    assert_eq!(*res.current(), ResourceState::Resolved(1, Ok(7)));
}

#[test]
fn stale_generation_resolution_is_discarded() {
    // A second arm before the first fetch lands starts generation 2; the
    // late answer for generation 1 must change nothing, even after
    // generation 2 has resolved.
    let mut res: RemoteResource<u32> = RemoteResource::new();
    res.arm();
    res.arm();
    assert_eq!(*res.current(), ResourceState::Pending(2));
    res.resolve(2, Ok(22));
    assert_eq!(*res.current(), ResourceState::Resolved(2, Ok(22)));
    res.resolve(1, Ok(11));
    assert_eq!(*res.current(), ResourceState::Resolved(2, Ok(22)));
}

#[test]
fn out_of_order_arrivals_leave_highest_generation() {
    // Three arms, answers arriving newest first: only the newest sticks.
    let mut res: RemoteResource<u32> = RemoteResource::new();
    res.arm();
    res.arm();
    res.arm();
    res.resolve(3, Ok(33));
    res.resolve(2, Ok(222));
    res.resolve(1, Err(APIErr::Network("late failure".to_string())));
    assert_eq!(*res.current(), ResourceState::Resolved(3, Ok(33)));
}

#[test]
fn rearming_supersedes_a_resolved_state() {
    let mut res: RemoteResource<u32> = RemoteResource::new();
    res.arm();
    res.resolve(1, Ok(1));
    res.arm();
    assert_eq!(*res.current(), ResourceState::Pending(2));
}

#[test]
fn view_kind_maps_each_state_to_one_view() {
    assert_eq!(view_kind::<u32>(&ResourceState::NotTriggered), ViewKind::Neutral);
    assert_eq!(view_kind::<u32>(&ResourceState::Pending(4)), ViewKind::Loading);
    assert_eq!(view_kind(&ResourceState::Resolved(4, Ok(9u32))), ViewKind::Success);
    assert_eq!(
        view_kind::<u32>(&ResourceState::Resolved(
            4,
            Err(APIErr::Decode("bad".to_string()))
        )),
        ViewKind::Failure
    );
}

#[test]
fn gate_passes_payload_only_when_armed() {
    assert_eq!(gate(true, 5u32, "idle".to_string()), LazyLoad::Present(5));
    assert_eq!(
        gate(false, 5u32, "idle".to_string()),
        LazyLoad::Absent("idle".to_string())
    );
}

#[test]
fn error_labels_and_details() {
    let e = APIErr::Network("connection refused".to_string());
    assert_eq!(e.kind_label(), "Network err");
    assert_eq!(e.detail(), "connection refused");
    let e = APIErr::Decode("trailing garbage".to_string());
    assert_eq!(e.kind_label(), "Decode err");
    assert_eq!(e.detail(), "trailing garbage");
    let e = APIErr::NotTriggeredYet("no trigger armed".to_string());
    assert_eq!(e.kind_label(), "Not triggered yet");
    assert_eq!(e.detail(), "no trigger armed");
}
