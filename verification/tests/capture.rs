use solana_net_core::afxdp::{AfXdpGossipFilter, GOSSIP_QUEUE_ID};
use solana_net_core::dma::{get_umem_base_dma, umem_extent, DmaRegion, UmemMapping};
use solana_net_core::frame::{recycle, FrameDesc, FRAME_MASK, FRAME_SIZE};
use solana_net_core::pocket::RingPocket;
use solana_net_core::recycling::{
    forward_received, recycle_completed, recycle_into, recycle_returned, settle,
};
use solana_net_core::rings::{frame_ring, FrameConsumer, FrameProducer};
use solana_net_core::worker::{
    Action, CaptureWorker, Event, Phase, COMP_BATCH_SIZE, RX_BATCH_SIZE, UMEM_FRAME_COUNT,
};

fn desc(addr: usize) -> FrameDesc {
    FrameDesc { addr, options: 1, headroom_len: 2, data_len: 3 }
}

fn pending(pocket: &mut RingPocket) -> Vec<usize> {
    let mut addrs: Vec<usize> = Vec::new();
    loop {
        let offered: Vec<FrameDesc> = match pocket.produce_into() {
            Some(slice) => slice.to_vec(),
            None => return addrs,
        };
        addrs.extend(offered.iter().map(|d| d.addr));
        if pocket.produced_first(offered.len()) {
            let second: Vec<FrameDesc> = pocket.second_slice().to_vec();
            addrs.extend(second.iter().map(|d| d.addr));
            pocket.produced_second(second.len());
        }
    }
}

#[test]
fn constants() {
    assert_eq!(GOSSIP_QUEUE_ID, 14);
    assert_eq!(UMEM_FRAME_COUNT, 4096);
    assert_eq!(RX_BATCH_SIZE, 64);
    assert_eq!(COMP_BATCH_SIZE, 32);
    assert_eq!(FRAME_SIZE, 4096);
    assert_eq!(FRAME_MASK, !4095usize);
}

#[test]
fn recycle_moves_to_the_frame_start() {
    assert_eq!(recycle(desc(0)).addr, 0);
    assert_eq!(recycle(desc(256)).addr, 0);
    assert_eq!(recycle(desc(4095)).addr, 0);
    assert_eq!(recycle(desc(4096)).addr, 4096);
    assert_eq!(recycle(desc(5 * 4096 + 300)), desc(5 * 4096));
    assert_eq!(recycle(recycle(desc(9999))), recycle(desc(9999)));
}

#[test]
fn descriptor_accessors() {
    let empty = FrameDesc::default();
    assert_eq!(empty, FrameDesc { addr: 0, options: 0, headroom_len: 0, data_len: 0 });
    let mut d = desc(7);
    assert_eq!(d.addr(), 7);
    d.set_addr(8);
    assert_eq!(d, desc(8));
}

#[test]
fn pocket_is_first_in_first_out() {
    let mut pocket = RingPocket::new(4);
    assert!(pocket.produce_into().is_none());
    for addr in 1..=4 {
        pocket.push(desc(addr));
    }
    assert!(pocket.is_full());
    assert_eq!(pocket.len(), 4);
    assert_eq!(pending(&mut pocket), vec![1, 2, 3, 4]);
    assert_eq!(pocket.len(), 0);
}

#[test]
fn pocket_wraps_around_in_two_slices() {
    let mut pocket = RingPocket::new(4);
    for addr in 1..=4 {
        pocket.push(desc(addr));
    }
    // A partial acceptance of the first slice ends the drain.
    assert!(!pocket.produced_first(3));
    assert_eq!(pocket.len(), 1);
    pocket.push(desc(5));
    pocket.push(desc(6));
    assert_eq!(pocket.produce_into(), Some(&[desc(4)][..]));
    // The whole first slice: the second is due and nothing has left yet.
    assert!(pocket.produced_first(1));
    assert_eq!(pocket.len(), 3);
    assert_eq!(pocket.second_slice(), &[desc(5), desc(6)][..]);
    pocket.produced_second(1);
    assert_eq!(pocket.len(), 1);
    assert_eq!(pending(&mut pocket), vec![6]);
}

#[test]
fn pocket_keeps_what_the_fill_queue_refuses() {
    let mut pocket = RingPocket::new(2);
    pocket.push(desc(1));
    assert!(!pocket.produced_first(0));
    assert_eq!(pocket.len(), 1);
    assert_eq!(pocket.produce_into(), Some(&[desc(1)][..]));
    assert!(!pocket.produced_first(1));
    assert!(pocket.produce_into().is_none());
    // The first slice accepted, nothing of the second.
    pocket.push(desc(2));
    pocket.push(desc(3));
    assert_eq!(pocket.produce_into(), Some(&[desc(2)][..]));
    assert!(pocket.produced_first(1));
    pocket.produced_second(0);
    assert_eq!(pending(&mut pocket), vec![3]);
}

#[test]
fn ring_ends_pass_descriptors_in_order() {
    let (mut producer, mut consumer) = frame_ring(2);
    assert_eq!(consumer.try_pop(), None);
    assert_eq!(producer.try_push(desc(1)), Ok(()));
    assert_eq!(producer.try_push(desc(2)), Ok(()));
    assert_eq!(producer.try_push(desc(3)), Err(desc(3)));
    assert_eq!(consumer.try_pop(), Some(desc(1)));
    // A slot has been freed since.
    assert_eq!(producer.try_push(desc(4)), Ok(()));
    assert_eq!(consumer.try_pop(), Some(desc(2)));
    assert_eq!(consumer.try_pop(), Some(desc(4)));
    assert_eq!(consumer.try_pop(), None);
}

#[test]
fn returned_descriptors_are_recycled_in_order() {
    let (mut producer, mut consumer) = frame_ring(8);
    let mut pocket = RingPocket::new(4);
    pocket.push(desc(1));
    for addr in [4097usize, 8200, 300] {
        assert_eq!(producer.try_push(desc(addr)), Ok(()));
    }
    recycle_returned(&mut pocket, &mut consumer);
    assert_eq!(pocket.len(), 4);
    // The pocket is full: what comes later stays in the ring.
    assert_eq!(producer.try_push(desc(20_000)), Ok(()));
    recycle_returned(&mut pocket, &mut consumer);
    assert_eq!(consumer.try_pop(), Some(desc(20_000)));
    assert_eq!(pending(&mut pocket), vec![1, 4096, 8192, 0]);
}

#[test]
fn completed_descriptors_are_recycled_in_order() {
    let mut pocket = RingPocket::new(4);
    recycle_completed(&mut pocket, &[desc(4100), desc(12_289)]);
    recycle_into(&mut pocket, desc(8191));
    assert_eq!(pending(&mut pocket), vec![4096, 12_288, 4096]);
}

#[test]
fn settle_recycles_only_what_was_not_sent() {
    let mut pocket = RingPocket::new(2);
    settle(&mut pocket, desc(5000), Ok(()));
    assert_eq!(pocket.len(), 0);
    settle(&mut pocket, desc(5000), Err(desc(5000)));
    assert_eq!(pending(&mut pocket), vec![4096]);
}

#[test]
fn full_consumer_ring_recycles_the_rest() {
    let (mut producer, mut consumer) = frame_ring(2);
    let mut pocket = RingPocket::new(8);
    let batch = [desc(256), desc(4352), desc(8448), desc(12_544)];
    forward_received(&mut pocket, &mut producer, &batch);
    assert_eq!(consumer.try_pop(), Some(desc(256)));
    assert_eq!(consumer.try_pop(), Some(desc(4352)));
    assert_eq!(consumer.try_pop(), None);
    assert_eq!(pending(&mut pocket), vec![8192, 12_288]);
    // With room again, everything is forwarded.
    forward_received(&mut pocket, &mut producer, &batch[2..]);
    assert_eq!(pocket.len(), 0);
    assert_eq!(consumer.try_pop(), Some(desc(8448)));
    assert_eq!(consumer.try_pop(), Some(desc(12_544)));
}

fn worker(
    count: usize,
    ring: usize,
) -> (CaptureWorker, FrameConsumer, FrameProducer) {
    let (gossip_prod, gossip_cons) = frame_ring(ring);
    let (return_prod, return_cons) = frame_ring(ring);
    let mut filter = AfXdpGossipFilter::new(String::from("eth0"), gossip_prod, return_cons);
    let descs: Vec<FrameDesc> = (0..count).map(|i| desc(i * 4096 + 256)).collect();
    let mapping = UmemMapping {
        first_data: 0x10_0000 + 256,
        first_headroom_len: 0,
        last_data: 0x10_0000 + (count - 1) * 4096 + 256,
        last_data_len: 3840,
    };
    let (state, region) = filter.init_sync(3, descs, mapping);
    assert_eq!(region.as_ptr(), 0x10_0000);
    assert_eq!(state.umem_base.as_ptr(), 0x10_0000);
    assert_eq!(state.umem_size, count * 4096);
    assert_eq!(state.iface, "eth0");
    assert_eq!(state.core_id, 3);
    assert_eq!(state.descs.len(), count);
    let mut worker = filter.run_loop(state);
    assert_eq!(worker.phase(), Phase::Start);
    assert_eq!(worker.step(Event::Started), Action::Pin(3));
    assert_eq!(worker.phase(), Phase::Pin);
    assert_eq!(worker.step(Event::Pinned), Action::PollStop);
    (worker, gossip_cons, return_prod)
}

#[test]
fn pin_request_comes_before_any_ring_or_queue() {
    let (gossip_prod, mut gossip) = frame_ring(4);
    let (mut returns, return_cons) = frame_ring(4);
    assert_eq!(returns.try_push(desc(5000)), Ok(()));
    let mut worker = CaptureWorker::new(&vec![desc(256)], 7, gossip_prod, return_cons);
    assert_eq!(worker.step(Event::Started), Action::Pin(7));
    assert_eq!(worker.pending_len(), 1);
    // The first poll of the stop flag follows without a pause.
    assert_eq!(worker.step(Event::Pinned), Action::PollStop);
    assert_eq!(worker.phase(), Phase::PollStop);
    // Neither the return ring nor the consumer's ring has been touched so far.
    assert_eq!(worker.pending_len(), 1);
    assert_eq!(gossip.try_pop(), None);
    assert_eq!(worker.step(Event::Stop(false)), Action::ConsumeCompletions);
    assert_eq!(worker.pending_len(), 2);
}

#[test]
fn pops_give_each_descriptor_once_around_the_ring() {
    let (mut producer, mut consumer) = frame_ring(3);
    let mut popped: Vec<usize> = Vec::new();
    // Several times around a ring of three slots, with empty polls in between.
    for round in 0..10usize {
        assert_eq!(consumer.try_pop(), None);
        assert_eq!(producer.try_push(desc(2 * round)), Ok(()));
        assert_eq!(producer.try_push(desc(2 * round + 1)), Ok(()));
        while let Some(d) = consumer.try_pop() {
            popped.push(d.addr);
        }
    }
    let all: Vec<usize> = (0..20).collect();
    assert_eq!(popped, all);
}

#[test]
fn one_busy_and_one_idle_iteration() {
    let (mut worker, mut gossip, mut returns) = worker(3, 1);
    assert_eq!(worker.phase(), Phase::PollStop);
    assert_eq!(worker.pending_len(), 3);

    // Iteration one: everything goes to the fill queue.
    assert_eq!(worker.step(Event::Stop(false)), Action::ConsumeCompletions);
    assert_eq!(worker.step(Event::Completed(&[])), Action::ConsumeReceived);
    assert_eq!(worker.step(Event::Received(&[])), Action::Produce);
    assert_eq!(worker.offer(), &[desc(256), desc(4352), desc(8448)][..]);
    assert_eq!(worker.step(Event::Produced(3)), Action::Pause);
    assert_eq!(worker.pending_len(), 0);

    // Iteration two: one frame fits the consumer's ring, the other is recycled.
    assert_eq!(worker.step(Event::Stop(false)), Action::ConsumeCompletions);
    assert_eq!(worker.step(Event::Completed(&[desc(8448)])), Action::ConsumeReceived);
    assert_eq!(worker.step(Event::Received(&[desc(300), desc(4400)])), Action::Produce);
    assert_eq!(worker.offer(), &[desc(8192), desc(4096)][..]);
    assert_eq!(worker.step(Event::Produced(0)), Action::PollStop);
    assert_eq!(worker.pending_len(), 2);
    assert_eq!(gossip.try_pop(), Some(desc(300)));

    // Iteration three: the consumer returns its frame.
    assert_eq!(returns.try_push(desc(300)), Ok(()));
    assert_eq!(worker.step(Event::Stop(false)), Action::ConsumeCompletions);
    assert_eq!(worker.pending_len(), 3);
    assert_eq!(worker.step(Event::Completed(&[])), Action::ConsumeReceived);
    assert_eq!(worker.step(Event::Received(&[])), Action::Produce);
    assert_eq!(worker.offer(), &[desc(8192), desc(4096), desc(0)][..]);
    assert_eq!(worker.step(Event::Produced(3)), Action::Pause);

    // Iteration four: nothing to do.
    assert_eq!(worker.step(Event::Stop(false)), Action::ConsumeCompletions);
    assert_eq!(worker.step(Event::Completed(&[])), Action::ConsumeReceived);
    assert_eq!(worker.step(Event::Received(&[])), Action::Pause);
    assert_eq!(worker.phase(), Phase::PollStop);

    assert_eq!(worker.step(Event::Stop(true)), Action::Exit);
    assert_eq!(worker.phase(), Phase::Stopped);
}

#[test]
fn fill_offers_a_second_slice_past_the_wrap() {
    let (mut worker, _gossip, _returns) = worker(4096, 8);
    worker.step(Event::Stop(false));
    worker.step(Event::Completed(&[]));
    assert_eq!(worker.step(Event::Received(&[])), Action::Produce);
    assert_eq!(worker.offer().len(), 4096);
    assert_eq!(worker.step(Event::Produced(4090)), Action::Pause);

    worker.step(Event::Stop(false));
    let completed: Vec<FrameDesc> = (0..8).map(|i| desc(i * 4096)).collect();
    worker.step(Event::Completed(&completed));
    assert_eq!(worker.step(Event::Received(&[])), Action::Produce);
    assert_eq!(worker.phase(), Phase::FillFirst);
    assert_eq!(worker.offer().len(), 6);
    assert_eq!(worker.offer()[0], desc(4090 * 4096 + 256));
    assert_eq!(worker.step(Event::Produced(6)), Action::Produce);
    assert_eq!(worker.phase(), Phase::FillSecond);
    assert_eq!(worker.pending_len(), 14);
    assert_eq!(worker.offer(), &completed[..]);
    assert_eq!(worker.step(Event::Produced(5)), Action::PollStop);
    assert_eq!(worker.pending_len(), 3);

    worker.step(Event::Stop(false));
    worker.step(Event::Completed(&[]));
    assert_eq!(worker.step(Event::Received(&[])), Action::Produce);
    assert_eq!(worker.offer(), &completed[5..]);
}

#[test]
fn frames_are_conserved() {
    let total = 16usize;
    let (mut worker, mut gossip, mut returns) = worker(total, 4);
    let mut kernel: Vec<FrameDesc> = Vec::new();
    let mut held: Vec<FrameDesc> = Vec::new();
    for round in 0..50usize {
        worker.step(Event::Stop(false));
        worker.step(Event::Completed(&[]));
        let take = kernel.len().min(round % 5);
        let batch: Vec<FrameDesc> =
            kernel.drain(..take).map(|d| desc(d.addr + 256 + round)).collect();
        let mut action = worker.step(Event::Received(&batch));
        while action == Action::Produce {
            let accepted = worker.offer().len().min(3);
            kernel.extend_from_slice(&worker.offer()[..accepted]);
            action = worker.step(Event::Produced(accepted));
        }
        kernel = kernel.iter().map(|d| recycle(*d)).collect();
        while let Some(d) = gossip.try_pop() {
            held.push(d);
        }
        if round % 3 == 0 {
            while let Some(d) = held.pop() {
                if let Err(back) = returns.try_push(d) {
                    held.push(back);
                    break;
                }
            }
        }
        assert!(worker.pending_len() + kernel.len() + held.len() <= total);
    }
    let (mut in_ring, mut frames): (usize, Vec<usize>) = (0, Vec::new());
    while let Some(d) = held.pop() {
        frames.push(recycle(d).addr);
        in_ring += 1;
    }
    worker.step(Event::Stop(false));
    assert_eq!(worker.pending_len() + kernel.len() + in_ring, total);
    worker.step(Event::Completed(&[]));
    let mut action = worker.step(Event::Received(&[]));
    while action == Action::Produce {
        let count = worker.offer().len();
        frames.extend(worker.offer().iter().map(|d| recycle(*d).addr));
        action = worker.step(Event::Produced(count));
    }
    frames.extend(kernel.iter().map(|d| d.addr));
    frames.sort();
    let all: Vec<usize> = (0..total).map(|i| i * 4096).collect();
    assert_eq!(frames, all);
}

#[test]
fn region_addresses() {
    assert!(get_umem_base_dma(0).is_none());
    assert_eq!(get_umem_base_dma(0x2000).map(|r| r.as_ptr()), Some(0x2000));
    let region = DmaRegion::new(0x2000);
    assert_eq!(region.prefetch_at(0x100), (0x2100, 0x2140));
    assert_eq!(region.slice(0x100, 60), (0x2100, 0x213C));
}

#[test]
fn extent_accounts_for_offset_and_headroom() {
    let mapping = UmemMapping {
        first_data: 0x5_0000 + 256 + 16,
        first_headroom_len: 16,
        last_data: 0x5_0000 + 7 * 4096 + 256,
        last_data_len: 100,
    };
    let (region, size) = umem_extent(mapping, 256);
    assert_eq!(region.as_ptr(), 0x5_0000);
    assert_eq!(size, 7 * 4096 + 356);
}

#[test]
fn fill_queue_gets_the_initial_then_the_recycled_descriptors() {
    let (mut worker, mut gossip, mut returns) = worker(3, 1);
    let mut accepted: Vec<usize> = Vec::new();
    let batches: [(&[FrameDesc], &[FrameDesc], usize); 3] = [
        (&[], &[], 2),
        (&[desc(4352)], &[desc(300), desc(8500)], 2),
        (&[], &[], 9),
    ];
    for (completed, received, most) in batches {
        worker.step(Event::Stop(false));
        worker.step(Event::Completed(completed));
        let mut action = worker.step(Event::Received(received));
        while action == Action::Produce {
            let count = worker.offer().len().min(most);
            accepted.extend(worker.offer()[..count].iter().map(|d| d.addr));
            action = worker.step(Event::Produced(count));
        }
        if let Some(d) = gossip.try_pop() {
            assert_eq!(returns.try_push(d), Ok(()));
        }
    }
    // The initial descriptors as given, then completed, refused and returned ones, masked.
    assert_eq!(accepted, vec![256, 4352, 8448, 4096, 8192, 0]);
}

#[test]
fn set_stop_flag_ends_the_loop_within_the_iteration() {
    let (mut worker, _gossip, mut returns) = worker(2, 2);
    assert_eq!(worker.step(Event::Stop(false)), Action::ConsumeCompletions);
    // The flag is set now; the iteration is finished first.
    assert_eq!(worker.step(Event::Completed(&[])), Action::ConsumeReceived);
    assert_eq!(worker.step(Event::Received(&[])), Action::Produce);
    assert_eq!(worker.step(Event::Produced(1)), Action::Pause);
    assert_eq!(returns.try_push(desc(5000)), Ok(()));
    assert_eq!(worker.step(Event::Stop(true)), Action::Exit);
    assert_eq!(worker.phase(), Phase::Stopped);
    // Nothing was popped on the way out.
    assert_eq!(worker.pending_len(), 1);
}

#[test]
fn equal_runs_act_alike() {
    let (mut a, _ga, mut ra) = worker(6, 2);
    let (mut b, _gb, mut rb) = worker(6, 2);
    for round in 0..4usize {
        assert_eq!(ra.try_push(desc(round * 4096 + 9)), rb.try_push(desc(round * 4096 + 9)));
        let received = [desc(round * 4096 + 256)];
        assert_eq!(a.step(Event::Stop(false)), b.step(Event::Stop(false)));
        assert_eq!(a.step(Event::Completed(&[])), b.step(Event::Completed(&[])));
        let mut action = a.step(Event::Received(&received));
        assert_eq!(action, b.step(Event::Received(&received)));
        while action == Action::Produce {
            assert_eq!(a.offer(), b.offer());
            let count = a.offer().len().min(2);
            action = a.step(Event::Produced(count));
            assert_eq!(action, b.step(Event::Produced(count)));
        }
    }
}
