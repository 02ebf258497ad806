use ara::slot::Slot;
use ara::slot::Subscription;

#[test]
fn test_slot_basic() {
    let mut a = 1;
    let slot = Slot::new_labelled("test_slot");
    {
        let _dispose = slot.add(|x: &mut i32| {
            *x += 1;
        });

        assert_eq!(slot.count(), 1);

        slot.emit(|f| {
            f(&mut a);
        });

        assert_eq!(a, 2);
    }

    assert_eq!(slot.count(), 0);

    slot.emit(|f| {
        f(&mut a);
    });

    assert_eq!(a, 2);
}

#[test]
fn test_slot_detach() {
    let mut a = 34;
    let slot = Slot::new();
    slot.add(|x: &mut i32, b: i32| {
        *x += b;
    })
    .detach();
    assert_eq!(slot.count(), 1);
    slot.emit(|f| {
        f(&mut a, 35);
    });
    assert_eq!(a, 69);
}

#[test]
fn test_slot_subsription_join() {
    let mut a = 1;
    let s1 = Slot::new();
    let s2 = Slot::new();
    {
        let sub1 = s1.add(|x: &mut i32, b: i32| {
            *x += b;
        });
        let sub2 = s2.add(|x: &mut i32| {
            *x += 1;
        });

        assert_eq!(s1.count(), 1);
        assert_eq!(s2.count(), 1);

        let _join = Subscription::join(sub1, sub2);

        s1.emit(|f| {
            f(&mut a, 2);
        });
        s2.emit(|f| f(&mut a));
        assert_eq!(a, 4);
    }

    s1.emit(|f| {
        f(&mut a, 2);
    });
    s2.emit(|f| f(&mut a));

    assert_eq!(a, 4);
}

#[test]
fn slot_handles_share_one_registry_in_order() {
    let slot: Slot<i32> = Slot::new_labelled("numbers");
    assert_eq!(slot.get_label(), "numbers");
    assert_eq!(Slot::<i32>::default().get_label(), "Slot");
    let other = slot.share();
    assert_eq!(other.get_label(), "numbers");
    let first = slot.add(1);
    let second = other.add(2);
    let third = slot.add(3);
    assert_eq!(other.count(), 3);
    assert_eq!(first.subscribers(), 1);

    // Subscribers are called in the order in which they were added.
    let mut seen = Vec::new();
    slot.emit(|n| seen.push(*n));
    assert_eq!(seen, vec![1, 2, 3]);

    // Until the answer is `false`.
    let mut seen = Vec::new();
    slot.emit_while(|n| {
        seen.push(*n);
        *n < 2
    });
    assert_eq!(seen, vec![1, 2]);

    // Until the first failure, which is returned.
    let mut seen = Vec::new();
    let result: Result<(), i32> = slot.emit_ok(|n| {
        seen.push(*n);
        if *n == 2 {
            Err(*n)
        } else {
            Ok(())
        }
    });
    assert_eq!(result, Err(2));
    assert_eq!(seen, vec![1, 2]);
    let all: Result<(), i32> = slot.emit_ok(|_| Ok(()));
    assert_eq!(all, Ok(()));

    // A dropped subscription ends its subscriber; the others keep their order.
    drop(second);
    let mut seen = Vec::new();
    other.emit(|n| seen.push(*n));
    assert_eq!(seen, vec![1, 3]);

    let joined = first.join(third);
    assert_eq!(joined.subscribers(), 2);
    joined.detach();
    assert_eq!(slot.count(), 2);
    slot.clear();
    assert_eq!(other.count(), 0);
    assert_eq!(Subscription::new().subscribers(), 0);
}

#[test]
fn slot_keeps_what_is_added_while_callbacks_are_handed_out() {
    let slot: Slot<i32> = Slot::new();
    let other = slot.clone();
    let first = slot.add(1);
    let second = slot.add(2);
    let mut added = Vec::new();
    let mut seen = Vec::new();
    slot.emit(|n| {
        seen.push(*n);
        // The registry is handed out: the new subscriber waits behind it.
        added.push(other.add(10 * *n));
        assert_eq!(other.count(), added.len());
    });
    assert_eq!(seen, vec![1, 2]);
    assert_eq!(slot.count(), 4);
    let mut seen = Vec::new();
    slot.emit(|n| seen.push(*n));
    assert_eq!(seen, vec![1, 2, 10, 20]);
    drop(first);
    drop(added);
    let mut seen = Vec::new();
    slot.emit(|n| seen.push(*n));
    assert_eq!(seen, vec![2]);
    drop(second);
    assert_eq!(slot.count(), 0);
}
