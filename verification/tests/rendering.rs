use raytrace_parallel::pool::WorkerPool;
use raytrace_parallel::render::RenderWork;
use raytrace_parallel::render::Scene;

fn shade(x: u32, y: u32) -> (u8, u8, u8, u8) {
    ((x * 40 + 3) as u8, (y * 25 + 1) as u8, (x + y) as u8, 255)
}

#[test]
fn snapshot_size_is_always_four_bytes_per_pixel() {
    let mut pool = WorkerPool::<RenderWork, Vec<u8>>::new(2).unwrap();
    let scene = Scene::new(3, 2);
    let mut rs = scene.render(2, &mut pool, |x: u32, y: u32| shade(x, y)).map_err(|_| ()).unwrap();
    // before any chunk is written the snapshot is all zeros, full-sized
    let frame = rs.image_so_far();
    assert_eq!(frame.width, 3);
    assert_eq!(frame.height, 2);
    assert_eq!(frame.data.len(), 24);
    assert!(frame.data.iter().all(|b| *b == 0));
    // a snapshot mid-render never fails and keeps the declared size
    rs.render_chunk(0);
    let frame = rs.image_so_far();
    assert_eq!(frame.data.len(), 24);
}

#[test]
fn progressive_snapshot_shows_partial_progress() {
    let mut pool = WorkerPool::<RenderWork, Vec<u8>>::new(1).unwrap();
    let scene = Scene::new(2, 1);
    let mut rs = scene.render(1, &mut pool, |x: u32, y: u32| shade(x, y)).map_err(|_| ()).unwrap();
    rs.render_chunk(0);
    assert!(rs.chunk_written(0));
    assert!(!rs.chunk_written(1));
    let frame = rs.image_so_far();
    let (r, g, b, a) = shade(0, 0);
    assert_eq!(&frame.data[0..4], &[r, g, b, a]);
    // the second chunk is still untouched
    assert_eq!(&frame.data[4..8], &[0, 0, 0, 0]);
}

#[test]
fn two_by_two_scene_renders_every_chunk_exactly_once() {
    let mut pool = WorkerPool::<RenderWork, Vec<u8>>::new(2).unwrap();
    let scene = Scene::new(2, 2);
    let mut rs = scene.render(2, &mut pool, |x: u32, y: u32| shade(x, y)).map_err(|_| ()).unwrap();
    // the worker's entry point takes the installed parallel for-each
    let work = pool.child_entry_point(rs.dispatch().handle).unwrap();
    assert!(matches!(work, RenderWork::ParallelFor));
    rs.render_all();
    for i in 0..4 {
        assert!(rs.chunk_written(i));
    }
    rs.finish(&mut pool);
    let data = pool.take_result(rs.promise()).unwrap();
    assert_eq!(data.len(), 16);
    for i in 0..4u32 {
        let (x, y) = (i % 2, i / 2);
        let (r, g, b, a) = shade(x, y);
        let at = (4 * i) as usize;
        assert_eq!(&data[at..at + 4], &[r, g, b, a]);
    }
    // completion resolves exactly once
    assert_eq!(pool.take_result(rs.promise()), None);
    // the buffer can still be read progressively after completion
    assert_eq!(rs.image_so_far().data, data);
}

#[test]
fn concurrency_levels_produce_identical_bytes() {
    let scene = Scene::new(4, 3);

    let mut pool_one = WorkerPool::<RenderWork, Vec<u8>>::new(1).unwrap();
    let mut low = scene.render(1, &mut pool_one, |x: u32, y: u32| shade(x, y))
        .map_err(|_| ())
        .unwrap();
    low.render_all();

    let mut pool_four = WorkerPool::<RenderWork, Vec<u8>>::new(4).unwrap();
    let mut high = scene.render(4, &mut pool_four, |x: u32, y: u32| shade(x, y))
        .map_err(|_| ())
        .unwrap();
    high.render_all();

    assert_eq!(low.image_so_far().data, high.image_so_far().data);
}

#[test]
fn driving_a_render_to_completion_yields_the_renderer_bytes() {
    let mut pool = WorkerPool::<RenderWork, Vec<u8>>::new(2).unwrap();
    let scene = Scene::new(2, 2);
    let data = raytrace_parallel::render::render_to_completion(scene, 2, &mut pool, |x: u32,
        y: u32| shade(x, y)).map_err(|_| ()).unwrap();
    assert_eq!(data.len(), 16);
    for i in 0..4u32 {
        let (x, y) = (i % 2, i / 2);
        let (r, g, b, a) = shade(x, y);
        let at = (4 * i) as usize;
        assert_eq!(&data[at..at + 4], &[r, g, b, a]);
    }
    // the for-each's worker was reclaimed into the idle set
    assert_eq!(pool.idle_count(), 1);
}

#[test]
fn render_proxies_logical_threads_onto_the_pool() {
    let mut pool = WorkerPool::<RenderWork, Vec<u8>>::new(4).unwrap();
    let scene = Scene::new(1, 1);
    let rs = scene.render(4, &mut pool, |x: u32, y: u32| shade(x, y)).map_err(|_| ()).unwrap();
    // three thread bodies plus the for-each itself consumed all four workers
    assert_eq!(pool.idle_count(), 0);
    assert_eq!(pool.worker_total(), 4);
    let work = pool.child_entry_point(rs.dispatch().handle).unwrap();
    assert!(matches!(work, RenderWork::ParallelFor));
}
