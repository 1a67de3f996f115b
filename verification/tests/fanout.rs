use std::cell::RefCell;
use std::rc::Rc;

use ffmpeg_caster::fanout::{deliver_chunk, encoded_frames, FanoutRegistry};
use ffmpeg_caster::nal::{FrameChunk, NalSplitter};
use ffmpeg_caster::pipeline::{EncodedFrame, FrameKind};

type Log = Rc<RefCell<Vec<String>>>;
type Registry = FanoutRegistry<Box<dyn Fn(&EncodedFrame)>, Box<dyn Fn(&[u8])>>;

fn frames_into(log: &Log, name: &str) -> Box<dyn Fn(&EncodedFrame)> {
    let (log, name) = (log.clone(), name.to_string());
    Box::new(move |frame: &EncodedFrame| {
        log.borrow_mut()
            .push(format!("{name} {:?} {:?}", frame.kind, frame.payload));
    })
}

fn raw_into(log: &Log, name: &str) -> Box<dyn Fn(&[u8])> {
    let (log, name) = (log.clone(), name.to_string());
    Box::new(move |chunk: &[u8]| log.borrow_mut().push(format!("{name} {chunk:?}")))
}

fn broadcast_frame(registry: &Registry, frame: &EncodedFrame) {
    let turns = registry.broadcast_frame(
        frame,
        0,
        |turns: usize, callback: &Box<dyn Fn(&EncodedFrame)>, frame: &EncodedFrame| {
            callback(frame);
            turns + 1
        },
    );
    assert_eq!(turns, registry.frame_subscribers().len());
}

fn broadcast_raw(registry: &Registry, chunk: &[u8]) {
    let turns = registry.broadcast_raw(
        chunk,
        0,
        |turns: usize, callback: &Box<dyn Fn(&[u8])>, chunk: &[u8]| {
            callback(chunk);
            turns + 1
        },
    );
    assert_eq!(turns, registry.raw_subscribers().len());
}

fn sorted(log: &Log) -> Vec<String> {
    let mut lines = log.borrow().clone();
    lines.sort();
    log.borrow_mut().clear();
    lines
}

#[test]
fn every_subscriber_is_called_once() {
    let log: Log = Rc::new(RefCell::new(Vec::new()));
    let mut registry = Registry::default();
    registry.subscribe_frames(frames_into(&log, "a"));
    registry.subscribe_raw(raw_into(&log, "b"));
    registry.subscribe_frames(frames_into(&log, "c"));
    let frame = EncodedFrame {
        kind: FrameKind::Key,
        payload: vec![7],
    };
    broadcast_frame(&registry, &frame);
    assert_eq!(sorted(&log), vec!["a Key [7]", "c Key [7]"]);
    broadcast_raw(&registry, &[1, 2]);
    assert_eq!(sorted(&log), vec!["b [1, 2]"]);
    assert_eq!(registry.raw_subscribers().len(), 1);
    assert_eq!(registry.frame_subscribers().len(), 2);
}

#[test]
fn unsubscribing_ends_one_subscription() {
    let log: Log = Rc::new(RefCell::new(Vec::new()));
    let mut registry = Registry::default();
    let a = registry.subscribe_raw(raw_into(&log, "a"));
    let b = registry.subscribe_frames(frames_into(&log, "b"));
    let c = registry.subscribe_raw(raw_into(&log, "c"));
    assert!(a != b && b != c && a != c);
    registry.unsubscribe(a);
    registry.unsubscribe(a);
    broadcast_raw(&registry, &[3]);
    assert_eq!(sorted(&log), vec!["c [3]"]);
    registry.unsubscribe(b);
    broadcast_frame(
        &registry,
        &EncodedFrame {
            kind: FrameKind::Delta,
            payload: vec![],
        },
    );
    assert!(sorted(&log).is_empty());
    let d = registry.subscribe_raw(raw_into(&log, "d"));
    assert!(d != a && d != b && d != c);
    broadcast_raw(&registry, &[]);
    assert_eq!(sorted(&log), vec!["c []", "d []"]);
}

#[test]
fn a_piece_of_the_stream_goes_out_raw_and_in_frames() {
    let log: Log = Rc::new(RefCell::new(Vec::new()));
    let mut registry = Registry::default();
    registry.subscribe_raw(raw_into(&log, "raw"));
    registry.subscribe_frames(frames_into(&log, "one"));
    registry.subscribe_frames(frames_into(&log, "two"));
    let splitter = RefCell::new(NalSplitter::new(false));
    let deliver = |chunk: &[u8]| {
        deliver_chunk(
            chunk,
            (),
            |_, chunk: &[u8]| broadcast_raw(&registry, chunk),
            |chunk: &[u8]| splitter.borrow_mut().push(chunk),
            |_, frame: &EncodedFrame| broadcast_frame(&registry, frame),
        )
    };
    deliver(&[0, 0, 1, 5, 9, 0, 0, 1, 9]);
    assert_eq!(log.borrow().len(), 1);
    log.borrow_mut().clear();
    deliver(&[0, 0, 1, 1, 0, 0, 1, 9, 0, 0, 1, 9]);
    assert_eq!(log.borrow()[0], "raw [0, 0, 1, 1, 0, 0, 1, 9, 0, 0, 1, 9]");
    let frames: Vec<String> = log.borrow()[1..].to_vec();
    assert_eq!(frames.len(), 4);
    assert!(frames[0].ends_with("Key [0, 0, 1, 5, 9]"));
    assert!(frames[1].ends_with("Key [0, 0, 1, 5, 9]"));
    assert!(frames[2].ends_with("Delta [0, 0, 1, 9, 0, 0, 1, 1]"));
    assert!(frames[3].ends_with("Delta [0, 0, 1, 9, 0, 0, 1, 1]"));
}

#[test]
fn each_part_of_a_piece_is_handed_out_once_and_in_order() {
    let chunk = |payload: Vec<u8>, is_key| FrameChunk { payload, is_key };
    let order = deliver_chunk(
        &[1, 2],
        Vec::new(),
        |mut order: Vec<String>, chunk: &[u8]| {
            order.push(format!("raw {chunk:?}"));
            order
        },
        |_: &[u8]| vec![chunk(vec![3], true), chunk(vec![3], false), chunk(vec![4], false)],
        |mut order: Vec<String>, frame: &EncodedFrame| {
            order.push(format!("{:?} {:?}", frame.kind, frame.payload));
            order
        },
    );
    assert_eq!(order, vec!["raw [1, 2]", "Key [3]", "Delta [3]", "Delta [4]"]);
    let frames = encoded_frames(vec![chunk(vec![5], true), chunk(vec![], false)]);
    assert_eq!(frames.len(), 2);
    assert_eq!(frames[0].kind, FrameKind::Key);
    assert_eq!(frames[0].payload, vec![5]);
    assert_eq!(frames[1].kind, FrameKind::Delta);
    assert!(frames[1].payload.is_empty());
}

#[test]
fn numbers_are_not_handed_out_again() {
    let log: Log = Rc::new(RefCell::new(Vec::new()));
    let mut registry = Registry::default();
    let mut seen = Vec::new();
    for _ in 0..20 {
        let id = registry.subscribe_raw(raw_into(&log, "x"));
        assert!(!seen.contains(&id));
        seen.push(id);
        registry.unsubscribe(id);
        assert!(registry.raw_subscribers().is_empty());
    }
}
