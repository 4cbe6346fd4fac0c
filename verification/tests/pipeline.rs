use pixelflut_client::batch::batches;
use pixelflut_client::clip::{clip, CanvasBounds};
use pixelflut_client::error::ClientError;
use pixelflut_client::plan::{plan_image, summarize, WorkerOutcome};
use pixelflut_client::raster::{rasterize, ImageGrid};
use pixelflut_client::rect::rect_commands;
use pixelflut_client::shard::partition;
use pixelflut_client::types::{Pixel, Rect, Rgb};
use pixelflut_client::worker::{Worker, WorkerAction, WorkerPhase};

fn gray(v: u8) -> Rgb {
    Rgb { r: v, g: v, b: v }
}

fn px(x: u32, y: u32) -> Pixel {
    Pixel { x, y, color: gray(7) }
}

fn run_of(n: u32) -> Vec<Pixel> {
    (0..n).map(|i| px(i, 0)).collect()
}

#[test]
fn partition_exact_fit() {
    let pixels = run_of(100);
    let shards = partition(&pixels, 4);
    let lens: Vec<usize> = shards.iter().map(|s| s.len()).collect();
    assert_eq!(lens, vec![25, 25, 25, 25]);
}

#[test]
fn partition_last_shard_absorbs_remainder() {
    let pixels = run_of(10);
    let shards = partition(&pixels, 3);
    let lens: Vec<usize> = shards.iter().map(|s| s.len()).collect();
    assert_eq!(lens, vec![3, 3, 4]);
    let concat: Vec<Pixel> = shards.into_iter().flatten().collect();
    assert_eq!(concat.len(), 10);
    assert_eq!(concat, pixels);
}

#[test]
fn partition_concatenation_reproduces_input() {
    for n in 1..8usize {
        for len in 0..20u32 {
            let pixels = run_of(len);
            let shards = partition(&pixels, n);
            assert_eq!(shards.len(), n);
            let concat: Vec<Pixel> = shards.into_iter().flatten().collect();
            assert_eq!(concat, pixels);
        }
    }
}

#[test]
fn clip_keeps_inside_and_drops_outside() {
    let bounds = CanvasBounds { width: 10, height: 5 };
    let inside = vec![px(0, 0), px(9, 4), px(3, 2)];
    let outside = vec![px(10, 0), px(0, 5), px(10, 5), px(u32::MAX, 0)];
    let mut all = inside.clone();
    all.extend(outside.iter().cloned());
    let (kept, dropped) = clip(&all, &bounds);
    assert_eq!(kept, inside);
    assert!(dropped);

    let (kept_again, dropped_again) = clip(&inside, &bounds);
    assert_eq!(kept_again, inside);
    assert!(!dropped_again);
}

#[test]
fn rasterize_is_row_major_with_offset() {
    let grid = ImageGrid::new(2, 2, vec![gray(1), gray(2), gray(3), gray(4)]).unwrap();
    let pixels = rasterize(&grid, 5, 7);
    assert_eq!(
        pixels,
        vec![
            Pixel { x: 5, y: 7, color: gray(1) },
            Pixel { x: 6, y: 7, color: gray(2) },
            Pixel { x: 5, y: 8, color: gray(3) },
            Pixel { x: 6, y: 8, color: gray(4) },
        ]
    );
}

#[test]
fn image_grid_rejects_wrong_cell_count() {
    assert_eq!(ImageGrid::new(2, 2, vec![gray(1); 3]).err(), Some(ClientError::ImageDecode));
}

#[test]
fn batches_group_in_order_and_last_is_short() {
    let shard = run_of(5);
    let got = batches(&shard, 2);
    let cmds: Vec<String> = shard.iter().map(|p| p.to_cmd()).collect();
    assert_eq!(got.len(), 3);
    assert_eq!(got[0], format!("{}{}", cmds[0], cmds[1]));
    assert_eq!(got[1], format!("{}{}", cmds[2], cmds[3]));
    assert_eq!(got[2], cmds[4]);
    assert_eq!(got.concat(), cmds.concat());
}

#[test]
fn batches_of_empty_shard_are_empty() {
    let got = batches(&Vec::new(), 3);
    assert!(got.is_empty());
}

#[test]
fn oversized_image_is_clipped_to_canvas_with_one_warning() {
    let side = 200u32;
    let cells = (side * side) as usize;
    let grid = ImageGrid::new(side, side, vec![gray(9); cells]).unwrap();
    let pixels = rasterize(&grid, 0, 0);
    let bounds = CanvasBounds { width: 100, height: 100 };
    let (kept, dropped) = clip(&pixels, &bounds);
    assert!(dropped);
    assert_eq!(kept.len(), 100 * 100);
    assert!(kept.iter().all(|p| p.x < 100 && p.y < 100));
    // the quadrant survives in row-major order
    assert_eq!(kept[0], Pixel { x: 0, y: 0, color: gray(9) });
    assert_eq!(kept[99], Pixel { x: 99, y: 0, color: gray(9) });
    assert_eq!(kept[100], Pixel { x: 0, y: 1, color: gray(9) });
    assert_eq!(kept[100 * 100 - 1], Pixel { x: 99, y: 99, color: gray(9) });
}

#[test]
fn rect_commands_cover_all_cells_column_major() {
    let r = Rect { start_x: 1, start_y: 2, end_x: 3, end_y: 4, color: gray(5) };
    let cmds = rect_commands(&r);
    assert_eq!(
        cmds,
        vec![
            Pixel { x: 1, y: 2, color: gray(5) }.to_cmd(),
            Pixel { x: 1, y: 3, color: gray(5) }.to_cmd(),
            Pixel { x: 2, y: 2, color: gray(5) }.to_cmd(),
            Pixel { x: 2, y: 3, color: gray(5) }.to_cmd(),
        ]
    );
}

#[test]
fn rect_commands_of_empty_ranges_are_empty() {
    let r = Rect { start_x: 3, start_y: 2, end_x: 3, end_y: 4, color: gray(5) };
    assert!(rect_commands(&r).is_empty());
    let crossed = Rect { start_x: 5, start_y: 5, end_x: 2, end_y: 2, color: gray(5) };
    assert!(rect_commands(&crossed).is_empty());
}

#[test]
fn plan_image_builds_per_worker_batches() {
    let grid = ImageGrid::new(2, 1, vec![gray(1), gray(2)]).unwrap();
    let bounds = CanvasBounds { width: 10, height: 10 };
    let (plan, dropped) = plan_image(&grid, 0, 0, &bounds, 2, 1).unwrap();
    assert!(!dropped);
    assert_eq!(plan.len(), 2);
    assert_eq!(plan[0], vec![Pixel { x: 0, y: 0, color: gray(1) }.to_cmd()]);
    assert_eq!(plan[1], vec![Pixel { x: 1, y: 0, color: gray(2) }.to_cmd()]);
}

#[test]
fn plan_image_rejects_zero_workers_or_batch_size() {
    let grid = ImageGrid::new(1, 1, vec![gray(1)]).unwrap();
    let bounds = CanvasBounds { width: 10, height: 10 };
    assert_eq!(plan_image(&grid, 0, 0, &bounds, 0, 1).err(), Some(ClientError::Config));
    assert_eq!(plan_image(&grid, 0, 0, &bounds, 1, 0).err(), Some(ClientError::Config));
}

#[test]
fn plan_image_with_more_workers_than_pixels_gives_empty_shards() {
    let grid = ImageGrid::new(2, 1, vec![gray(1), gray(2)]).unwrap();
    let bounds = CanvasBounds { width: 10, height: 10 };
    let (plan, _) = plan_image(&grid, 0, 0, &bounds, 5, 1).unwrap();
    assert_eq!(plan.len(), 5);
    // span is 0, so the leading shards are empty and the last absorbs all
    assert!(plan[0].is_empty());
    assert!(plan[3].is_empty());
    assert_eq!(plan[4].len(), 2);
}

#[test]
fn worker_with_empty_shard_is_done_without_connecting() {
    let mut w = Worker::new(0, false);
    assert_eq!(w.phase, WorkerPhase::Idle);
    w.launch();
    assert_eq!(w.phase, WorkerPhase::Done);
    assert_eq!(w.action(), WorkerAction::Stop);
}

#[test]
fn worker_sends_batches_in_order_then_is_done() {
    let mut w = Worker::new(2, false);
    w.launch();
    assert_eq!(w.action(), WorkerAction::Connect);
    w.on_connect(true);
    assert_eq!(w.action(), WorkerAction::Write { index: 0 });
    w.on_write(true);
    assert_eq!(w.action(), WorkerAction::Write { index: 1 });
    w.on_write(true);
    assert_eq!(w.phase, WorkerPhase::Done);
    assert_eq!(w.action(), WorkerAction::Stop);
}

#[test]
fn worker_in_repeat_mode_wraps_to_first_batch() {
    let mut w = Worker::new(2, true);
    w.launch();
    w.on_connect(true);
    w.on_write(true);
    w.on_write(true);
    assert_eq!(w.phase, WorkerPhase::Sending { next: 0 });
    assert_eq!(w.action(), WorkerAction::Write { index: 0 });
}

#[test]
fn worker_failures_are_terminal() {
    let mut w = Worker::new(3, false);
    w.launch();
    w.on_connect(false);
    assert_eq!(w.phase, WorkerPhase::Failed);
    assert_eq!(w.action(), WorkerAction::Stop);

    let mut w2 = Worker::new(3, true);
    w2.launch();
    w2.on_connect(true);
    w2.on_write(false);
    assert_eq!(w2.phase, WorkerPhase::Failed);
}

#[test]
fn summarize_counts_outcomes_and_keeps_first_error() {
    let outcomes = vec![
        WorkerOutcome::Done,
        WorkerOutcome::Failed(ClientError::Connection),
        WorkerOutcome::Done,
        WorkerOutcome::Failed(ClientError::Protocol),
    ];
    let s = summarize(&outcomes);
    assert_eq!(s.workers_done, 2);
    assert_eq!(s.workers_failed, 2);
    assert_eq!(s.first_error, Some(ClientError::Connection));
}

#[test]
fn summarize_of_all_done_has_no_error() {
    let outcomes = vec![WorkerOutcome::Done, WorkerOutcome::Done];
    let s = summarize(&outcomes);
    assert_eq!(s.workers_done, 2);
    assert_eq!(s.workers_failed, 0);
    assert_eq!(s.first_error, None);
}
