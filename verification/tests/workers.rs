//! Work partitioning, the pixel queue, the worker cycle, the RNG and
//! the topology filter.

use raytracer::parallel_renderer::{worker_step, RenderPass, WorkerEvent, WorkerPhase};
use raytracer::processors::{assemble_processors, remove_hyperthreads, Processor, TopologyEntry};
use raytracer::rng::Rng;
use raytracer::stats::Statistics;
use raytracer::threading::{core_count, partition, PixelQueue, PixelRange};

fn total(ranges: &[PixelRange]) -> usize {
    ranges.iter().map(|r| r.size).sum()
}

#[test]
fn partition_covers_every_pixel_exactly() {
    // 21 pixels over 4 workers with oversubscription factor 2
    let ranges = partition(7 * 3, 4 * 2);
    assert_eq!(ranges.len(), 8);
    assert_eq!(total(&ranges), 21);
    // prime pixel count
    let ranges = partition(97, 4);
    assert_eq!(ranges.len(), 4);
    assert_eq!(total(&ranges), 97);
    // a single thread
    let ranges = partition(1000, 1);
    assert_eq!(ranges.len(), 1);
    assert_eq!(total(&ranges), 1000);
    assert_eq!(ranges[0].start, 0);
    // evenly divisible
    let ranges = partition(64, 8);
    assert!(ranges.iter().all(|r| r.size == 8));
}

#[test]
fn partition_ranges_are_consecutive() {
    let ranges = partition(1920 * 1080, 12 * 64);
    let mut expected_start = 0usize;
    for r in &ranges {
        assert_eq!(r.start, expected_start);
        expected_start += r.size;
    }
    assert_eq!(expected_start, 1920 * 1080);
}

#[test]
fn queue_pops_each_range_once_then_nothing() {
    let ranges = partition(21, 8);
    let mut queue = PixelQueue::new(ranges.clone());
    for expected in &ranges {
        let got = queue.pop().expect("queue must hand out every range");
        assert_eq!(got.start, expected.start);
        assert_eq!(got.size, expected.size);
    }
    assert!(queue.pop().is_none());
    assert!(queue.pop().is_none());
}

#[test]
fn simulated_workers_visit_every_pixel_once() {
    // four workers drain one queue over 21 pixels; every pixel index is
    // claimed exactly once in the aggregate
    let ranges = partition(21, 8);
    let mut queue = PixelQueue::new(ranges);
    let mut worker_claims: [Vec<PixelRange>; 4] = [vec![], vec![], vec![], vec![]];
    let mut turn = 0usize;
    loop {
        match queue.pop() {
            Some(range) => {
                worker_claims[turn % 4].push(range);
                turn += 1;
            }
            None => break,
        }
    }
    let mut seen = [0u32; 21];
    for claims in &worker_claims {
        for range in claims {
            for pixel in range.start..range.start + range.size {
                seen[pixel] += 1;
            }
        }
    }
    assert!(seen.iter().all(|&c| c == 1), "some pixel missed or claimed twice");
}

#[test]
fn rng_matches_the_xorshift_recurrence() {
    fn step(mut x: u64) -> u64 {
        x ^= x << 13;
        x ^= x >> 7;
        x ^= x << 17;
        x
    }
    let seed = 0x1234_5678_9abc_def0u64;
    let mut expected = seed;
    for _ in 0..10 {
        expected = step(expected);
    }
    // with_seed warms up with ten rounds; the next draw is round eleven
    expected = step(expected);
    let mut rng = Rng::with_seed(seed);
    let got: u64 = rng.rand();
    assert_eq!(got, expected);
}

#[test]
fn rng_same_seed_same_stream() {
    let mut a = Rng::with_seed(7);
    let mut b = Rng::with_seed(7);
    for _ in 0..100 {
        let x: u64 = a.rand();
        let y: u64 = b.rand();
        assert_eq!(x, y);
    }
}

#[test]
fn rng_range_stays_in_bounds() {
    let mut rng = Rng::with_seed(99);
    for _ in 0..1000 {
        let v: u32 = rng.rand_range(10u32, 20u32);
        assert!((10..20).contains(&v));
        let w: usize = rng.rand_range(0usize, 3usize);
        assert!(w < 3);
    }
}

#[test]
fn hyperthreads_are_filtered_keeping_the_first_per_core() {
    let p = |id: u32, core_id: u32| Processor { id, core_id, physical_id: 0 };
    let mut list = vec![p(0, 0), p(1, 1), p(2, 0), p(3, 1), p(4, 2)];
    remove_hyperthreads(&mut list);
    let kept: Vec<(u32, u32)> = list.iter().map(|q| (q.id, q.core_id)).collect();
    assert_eq!(kept, vec![(0, 0), (1, 1), (4, 2)]);
}

#[test]
fn filtering_a_clean_list_keeps_it() {
    let p = |id: u32, core_id: u32| Processor { id, core_id, physical_id: 0 };
    let mut list = vec![p(0, 0), p(1, 1)];
    remove_hyperthreads(&mut list);
    assert_eq!(list.len(), 2);
}

#[test]
fn topology_listing_assembles_in_order() {
    let entries = vec![
        TopologyEntry::ProcessorId(0),
        TopologyEntry::CoreId(0),
        TopologyEntry::PhysicalId(0),
        TopologyEntry::ProcessorId(1),
        TopologyEntry::PhysicalId(0),
        TopologyEntry::CoreId(1),
    ];
    let ps = assemble_processors(&entries, 2).expect("well-formed listing must assemble");
    assert_eq!(ps.len(), 2);
    assert_eq!((ps[0].id, ps[0].core_id, ps[0].physical_id), (0, 0, 0));
    assert_eq!((ps[1].id, ps[1].core_id, ps[1].physical_id), (1, 1, 0));
}

#[test]
fn malformed_topology_listings_are_rejected() {
    let ok = |id: u32| {
        vec![
            TopologyEntry::ProcessorId(id),
            TopologyEntry::CoreId(0),
            TopologyEntry::PhysicalId(0),
        ]
    };
    // processor identifiers must strictly increase
    let mut non_increasing = ok(1);
    non_increasing.extend(ok(1));
    assert!(assemble_processors(&non_increasing, 2).is_none());
    // a core identifier may be given only once per processor
    let duplicate_core = vec![
        TopologyEntry::ProcessorId(0),
        TopologyEntry::CoreId(0),
        TopologyEntry::CoreId(1),
        TopologyEntry::PhysicalId(0),
    ];
    assert!(assemble_processors(&duplicate_core, 1).is_none());
    // facts before any processor are malformed
    assert!(assemble_processors(&vec![TopologyEntry::CoreId(0)], 0).is_none());
    // every record must be complete
    let incomplete = vec![TopologyEntry::ProcessorId(0), TopologyEntry::CoreId(0)];
    assert!(assemble_processors(&incomplete, 1).is_none());
    // and the count must match the platform's
    assert!(assemble_processors(&ok(0), 2).is_none());
}

#[test]
fn worker_cycle_follows_the_protocol() {
    let step = worker_step;
    assert_eq!(step(WorkerPhase::Idle, WorkerEvent::Published), Some(WorkerPhase::SyncStart));
    assert_eq!(step(WorkerPhase::SyncStart, WorkerEvent::Synced), Some(WorkerPhase::Draining));
    assert_eq!(step(WorkerPhase::Draining, WorkerEvent::RangeDone), Some(WorkerPhase::Draining));
    assert_eq!(step(WorkerPhase::Draining, WorkerEvent::QueueEmpty), Some(WorkerPhase::Reporting));
    assert_eq!(step(WorkerPhase::Reporting, WorkerEvent::Reported), Some(WorkerPhase::SyncEnd));
    assert_eq!(step(WorkerPhase::SyncEnd, WorkerEvent::Synced), Some(WorkerPhase::Idle));
    // out-of-protocol events move nowhere
    assert_eq!(step(WorkerPhase::Idle, WorkerEvent::Synced), None);
    assert_eq!(step(WorkerPhase::Draining, WorkerEvent::Published), None);
    assert_eq!(step(WorkerPhase::Reporting, WorkerEvent::QueueEmpty), None);
}

#[test]
fn render_pass_completes_after_every_worker_reports() {
    let mut pass = RenderPass::new(3);
    assert!(!pass.is_complete());
    pass.worker_done();
    pass.worker_done();
    assert!(!pass.is_complete());
    pass.worker_done();
    assert!(pass.is_complete());
}

#[test]
fn statistics_accumulate_progress() {
    let mut stats = Statistics::new();
    assert_eq!(stats.pixels_done, 0);
    stats.record_pixels(8192);
    stats.record_pixels(100);
    assert_eq!(stats.pixels_done, 8292);
}

#[test]
fn machine_reports_at_least_one_core() {
    assert!(core_count() >= 1);
}
