use reactive_multimap::message_listeners::{map_step, filter_step, MessageListeners};
use reactive_multimap::message_listeners2 as ml2;
use reactive_multimap::message_listeners2::MessageListeners2;
use reactive_multimap::minimal_code;
use reactive_multimap::multi_set::{map_items_step, MultiSetModifyMessage};

#[test]
fn message_listeners_test_message_listeners() {
    // Arrange
    let messages: Vec<i32>;
    {
        let mut ml = MessageListeners::new();

        // Act
        let sub = ml.listen();
        ml.send(1);
        ml.send(2);
        ml.send(3);
        messages = ml.drain(sub);
    }

    // Assert
    assert_eq!(messages, vec![1, 2, 3]);
}

#[test]
fn message_listeners_test_message_listeners_map() {
    // Arrange
    let messages: Vec<i32>;
    {
        let mut ml = MessageListeners::new();
        let g = |m: i32| m * 2;

        let (mut mapped, feed) = ml.map::<i32>();
        let sub = mapped.listen();
        ml.send(1);
        ml.send(2);
        ml.send(3);
        map_step(&mut ml, feed, &mut mapped, &g);
        messages = mapped.drain(sub);
    }

    // Assert
    assert_eq!(messages, vec![2, 4, 6]);
}

#[test]
fn message_listeners_test_message_listeners_filter() {
    // Arrange
    let messages: Vec<i32>;
    {
        let mut ml = MessageListeners::new();
        let g = |m: &i32| *m % 2 == 0;

        // Act
        let (mut gated, feed) = ml.filter();
        let sub = gated.listen();
        ml.send(1);
        ml.send(2);
        ml.send(3);
        ml.send(4);
        filter_step(&mut ml, feed, &mut gated, &g);
        messages = gated.drain(sub);
    }

    // Assert
    assert_eq!(messages, vec![2, 4]);
}

#[test]
fn message_listeners2_test_message_listeners() {
    // Arrange
    let messages: Vec<i32>;
    {
        let mut ml = MessageListeners2::new();

        // Act
        let sub = ml.listen();
        ml.send(1);
        ml.send(2);
        ml.send(3);
        messages = ml.drain(sub);
    }

    // Assert
    assert_eq!(messages, vec![1, 2, 3]);
}

#[test]
fn message_listeners2_test_message_listeners_map() {
    // Arrange
    let messages: Vec<i32>;
    {
        let mut ml = MessageListeners2::new();
        let g = |m: i32| m * 2;

        let (mut mapped, feed) = ml.map::<i32>();
        let sub = mapped.listen();
        ml.send(1);
        ml.send(2);
        ml.send(3);
        ml2::map_step(&mut ml, feed, &mut mapped, &g);
        messages = mapped.drain(sub);
    }

    // Assert
    assert_eq!(messages, vec![2, 4, 6]);
}

#[test]
fn message_listeners2_test_message_listeners_filter() {
    // Arrange
    let messages: Vec<i32>;
    {
        let mut ml = MessageListeners2::new();
        let g = |m: &i32| *m % 2 == 0;

        // Act
        let (mut gated, feed) = ml.filter();
        let sub = gated.listen();
        ml.send(1);
        ml.send(2);
        ml.send(3);
        ml.send(4);
        ml2::filter_step(&mut ml, feed, &mut gated, &g);
        messages = gated.drain(sub);
    }

    // Assert
    assert_eq!(messages, vec![2, 4]);
}

#[test]
fn test_message_listeners_map0() {
    let mut ml = minimal_code::MessageListeners::new();
    let (mut mapped, feed) = ml.map();
    let _sub = mapped.listen();
    ml.send(());
    minimal_code::map_step(&mut ml, feed, &mut mapped);
}

#[test]
fn test_message_listeners_map2() {
    let mut ml = minimal_code::MessageListeners::new();
    let mut temp_variable = ml.map();
    let _sub = temp_variable.0.listen();
    ml.send(());
    minimal_code::map_step(&mut ml, temp_variable.1, &mut temp_variable.0);
}

#[test]
fn test_multi_set_message_listeners_map_items() {
    let mut ml = MessageListeners::new();
    {
        let g = |m: i32| m;
        let (mut mi, feed) = ml.map_items::<i32>();
        let sub = mi.listen();
        ml.send(MultiSetModifyMessage::InsertOne(1));
        ml.send(MultiSetModifyMessage::RemoveOne(2));
        map_items_step(&mut ml, feed, &mut mi, &g);
        let _ = mi.drain(sub);
    }
}

#[test]
fn map_items_transforms_elements_and_keeps_kinds() {
    let mut ml = MessageListeners::new();
    let g = |m: i32| m + 10;
    let (mut mi, feed) = ml.map_items::<i32>();
    let sub = mi.listen();
    ml.send(MultiSetModifyMessage::InsertOne(1));
    ml.send(MultiSetModifyMessage::RemoveOne(2));
    map_items_step(&mut ml, feed, &mut mi, &g);
    assert_eq!(
        mi.drain(sub),
        vec![
            MultiSetModifyMessage::InsertOne(11),
            MultiSetModifyMessage::RemoveOne(12)
        ]
    );
}

#[test]
fn cancelled_subscription_receives_nothing() {
    let mut ml = MessageListeners::new();
    let a = ml.listen();
    let b = ml.listen();
    ml.send(1);
    ml.cancel(a);
    ml.cancel(a);
    ml.send(2);
    assert_eq!(ml.drain(a), Vec::<i32>::new());
    assert_eq!(ml.drain(b), vec![1, 2]);
    assert!(!ml.active(a));
    assert!(ml.active(b));
}

#[test]
fn subscription_sees_only_later_messages() {
    let mut ml = MessageListeners::new();
    ml.send(1);
    let sub = ml.listen();
    ml.send(2);
    assert_eq!(ml.drain(sub), vec![2]);
}
