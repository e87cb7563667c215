use dahhan::events::{EventIterator, EventReader, EventWriter, Events};

#[derive(Debug, Copy, Clone, PartialEq)]
struct SomeEvent(u32);

#[test]
fn test_event_reading() {
    let mut events = Events::new();

    events.send(SomeEvent(u32::MAX));
    events.send(SomeEvent(u32::MAX / 2));
    events.send(SomeEvent(0u32));

    let mut reader = EventReader::new();
    let mut it = EventIterator::new(reader.cursor(), &events);
    assert_eq!(Some(&SomeEvent(u32::MAX)), it.next());
    assert_eq!(Some(&SomeEvent(u32::MAX / 2)), it.next());
    assert_eq!(Some(&SomeEvent(0u32)), it.next());
    assert_eq!(None, it.next());

    let read = reader.read(&events);
    assert_eq!(
        read,
        vec![&SomeEvent(u32::MAX), &SomeEvent(u32::MAX / 2), &SomeEvent(0)]
    );
    assert!(reader.read(&events).is_empty());
}

#[test]
fn reader_sees_events_sent_after_catching_up() {
    let mut events = Events::new();
    let mut reader = EventReader::new();
    events.send(SomeEvent(1));
    assert_eq!(reader.read(&events), vec![&SomeEvent(1)]);
    events.send(SomeEvent(2));
    assert_eq!(reader.read(&events), vec![&SomeEvent(2)]);
    assert_eq!(reader.cursor(), 2);
}

#[test]
fn update_keeps_one_generation_back() {
    let mut events = Events::new();
    let mut reader = EventReader::new();
    events.send(SomeEvent(1));
    events.send(SomeEvent(2));
    events.update();
    events.send(SomeEvent(3));
    assert_eq!(events.len(), 3);
    assert_eq!(events.get(0), Some(&SomeEvent(3)));
    assert_eq!(events.get(1), None);
    assert_eq!(
        reader.read(&events),
        vec![&SomeEvent(1), &SomeEvent(2), &SomeEvent(3)]
    );

    let mut late = EventReader::new();
    events.update();
    events.update();
    assert!(events.is_empty());
    assert!(late.read(&events).is_empty());
    assert_eq!(late.cursor(), 3);
}

#[test]
fn late_reader_skips_dropped_generation() {
    let mut events = Events::new();
    let mut reader = EventReader::new();
    events.send(SomeEvent(1));
    events.update();
    events.send(SomeEvent(2));
    events.update();
    events.send(SomeEvent(3));
    assert_eq!(reader.read(&events), vec![&SomeEvent(2), &SomeEvent(3)]);
}

#[test]
fn iterator_count_nth_last() {
    let mut events = Events::new();
    for i in 0..5 {
        events.send(SomeEvent(i));
    }
    let mut it = EventIterator::new(0, &events);
    assert_eq!(it.unread(), 5);
    assert_eq!(it.nth(1), Some(&SomeEvent(1)));
    assert_eq!(it.cursor(), 2);
    assert_eq!(it.last(), Some(&SomeEvent(4)));
    assert_eq!(it.cursor(), 5);
    assert_eq!(it.next(), None);

    let mut it = EventIterator::new(3, &events);
    assert_eq!(it.count(), 2);
    assert_eq!(it.cursor(), 5);

    let mut it = EventIterator::new(1, &events);
    assert_eq!(it.nth(10), None);
    assert_eq!(it.cursor(), 5);

    let mut it = EventIterator::new(99, &events);
    assert_eq!(it.cursor(), 5);
    assert_eq!(it.last(), None);
}

#[test]
fn writer_sends_into_stream() {
    let mut events = Events::new();
    {
        let mut writer = EventWriter::new(&mut events);
        writer.send(SomeEvent(7));
        writer.send(SomeEvent(8));
    }
    assert_eq!(events.get(0), Some(&SomeEvent(7)));
    assert_eq!(events.get(1), Some(&SomeEvent(8)));
    assert_eq!(events.len(), 2);
}
