use std::collections::HashMap;

use bevy_app_compute::command::Command;
use bevy_app_compute::error::Error;
use bevy_app_compute::pipeline_cache::AppPipelineCache;
use bevy_app_compute::worker::{AppComputeWorker, RunMode};
use bevy_app_compute::worker_builder::AppComputeWorkerBuilder;

const ADD_PIPELINE: u64 = 100;
const SQUARE_PIPELINE: u64 = 200;

const UNIFORM: usize = 0;
const VALUES: usize = 1;
const OTHER: usize = 2;

const ADD_SHADER: usize = 0;
const SQUARE_SHADER: usize = 1;

fn le_bytes(values: &[u32]) -> Vec<u8> {
    values.iter().flat_map(|v| v.to_le_bytes()).collect()
}

fn le_values(bytes: &[u8]) -> Vec<u32> {
    bytes
        .chunks(4)
        .map(|c| u32::from_le_bytes([c[0], c[1], c[2], c[3]]))
        .collect()
}

/// A stand-in for the GPU: memory per allocation, mapped flags, and two
/// kernels. It panics when a copy targets a staging buffer that is still mapped.
#[derive(Default)]
struct Device {
    memory: HashMap<u64, Vec<u8>>,
    mapped: HashMap<u64, bool>,
    dispatches: Vec<(u64, Vec<u64>, [u32; 3])>,
    submits: usize,
    encoders: usize,
}

impl Device {
    fn create(&mut self, allocation: u64, bytes: Vec<u8>) {
        self.memory.insert(allocation, bytes);
    }

    fn create_staging(&mut self, allocation: u64, size: usize) {
        self.memory.insert(allocation, vec![0; size]);
        self.mapped.insert(allocation, true);
    }

    fn perform(&mut self, cmds: Vec<Command>) {
        for c in cmds {
            match c {
                Command::Unmap { staging } => {
                    self.mapped.insert(staging, false);
                }
                Command::Dispatch { pipeline, bindings, workgroups } => {
                    self.dispatches.push((pipeline, bindings.clone(), workgroups));
                    let count = workgroups[0] as usize;
                    match pipeline {
                        ADD_PIPELINE => {
                            let c = le_values(&self.memory[&bindings[0]])[0];
                            let mut v = le_values(&self.memory[&bindings[1]]);
                            for x in v.iter_mut().take(count) {
                                *x += c;
                            }
                            self.memory.insert(bindings[1], le_bytes(&v));
                        }
                        SQUARE_PIPELINE => {
                            let mut v = le_values(&self.memory[&bindings[0]]);
                            for x in v.iter_mut().take(count) {
                                *x *= *x;
                            }
                            self.memory.insert(bindings[0], le_bytes(&v));
                        }
                        _ => panic!("unknown pipeline {pipeline}"),
                    }
                }
                Command::Copy { source, staging, size } => {
                    assert!(!self.mapped[&staging], "copy into a mapped staging buffer");
                    let bytes = self.memory[&source][..size as usize].to_vec();
                    self.memory.get_mut(&staging).unwrap()[..size as usize]
                        .copy_from_slice(&bytes);
                }
                Command::Submit => self.submits += 1,
                Command::MapRead { staging } => {
                    self.mapped.insert(staging, true);
                }
                Command::NewEncoder => self.encoders += 1,
                Command::Write { allocation, bytes } => {
                    self.memory.get_mut(&allocation).unwrap()[..bytes.len()]
                        .copy_from_slice(&bytes);
                }
            }
        }
    }

    /// One scheduled tick: refresh, unmap, run, poll (the queue is always empty here).
    fn tick(&mut self, worker: &mut AppComputeWorker, cache: &AppPipelineCache) -> Result<(), Error> {
        worker.extract_pipelines(cache);
        let unmaps = worker.unmap_all();
        self.perform(unmaps);
        let cmds = worker.try_run()?;
        self.perform(cmds);
        if worker.polls() {
            worker.finish_run(true);
        }
        Ok(())
    }

    fn read(&self, worker: &AppComputeWorker, name: usize) -> Vec<u32> {
        le_values(&self.memory[&worker.read_raw(name)])
    }
}

fn ready_cache() -> AppPipelineCache {
    AppPipelineCache { pipeline_cache: vec![Some(ADD_PIPELINE), Some(SQUARE_PIPELINE)] }
}

/// A builder with a uniform `3` and a staged storage `[1, 2, 3, 4]`, and the
/// device holding them.
fn declare(device: &mut Device) -> AppComputeWorkerBuilder {
    let mut b = AppComputeWorkerBuilder::new();
    let (u, _, _) = b.add_uniform(UNIFORM, 4);
    device.create(u, le_bytes(&[3]));
    let ((s, _), (st, _)) = b.add_staging(VALUES, 16);
    device.create(s, le_bytes(&[1, 2, 3, 4]));
    device.create_staging(st, 16);
    b
}

#[test]
fn single_pass_adds_uniform() {
    let mut device = Device::default();
    let mut b = declare(&mut device);
    assert!(b.needs_pipeline(ADD_SHADER));
    b.add_pass(ADD_SHADER, 0, [4, 1, 1], vec![UNIFORM, VALUES]);
    let mut worker = b.build();
    assert!(!worker.ready());
    device.tick(&mut worker, &ready_cache()).unwrap();
    assert!(worker.ready());
    assert_eq!(device.read(&worker, VALUES), vec![4, 5, 6, 7]);
}

#[test]
fn two_chained_passes() {
    let mut device = Device::default();
    let mut b = declare(&mut device);
    b.add_pass(ADD_SHADER, 0, [4, 1, 1], vec![UNIFORM, VALUES])
        .add_pass(SQUARE_SHADER, 1, [4, 1, 1], vec![VALUES]);
    let mut worker = b.build();
    device.tick(&mut worker, &ready_cache()).unwrap();
    assert!(worker.ready());
    assert_eq!(device.read(&worker, VALUES), vec![16, 25, 36, 49]);
}

#[test]
fn pipeline_shared_between_passes() {
    let mut device = Device::default();
    let mut b = declare(&mut device);
    assert!(b.needs_pipeline(ADD_SHADER));
    b.add_pass(ADD_SHADER, 0, [4, 1, 1], vec![UNIFORM, VALUES]);
    assert!(!b.needs_pipeline(ADD_SHADER));
    // The second ticket is ignored: the first compilation is shared.
    b.add_pass(ADD_SHADER, 7, [4, 1, 1], vec![UNIFORM, VALUES]);
    let mut worker = b.build();
    assert!(worker.has_pipeline(ADD_SHADER));
    assert!(!worker.has_pipeline(SQUARE_SHADER));
    let cache = AppPipelineCache { pipeline_cache: vec![Some(ADD_PIPELINE)] };
    device.tick(&mut worker, &cache).unwrap();
    assert_eq!(device.dispatches.len(), 2);
    assert_eq!(device.dispatches[0].0, ADD_PIPELINE);
    assert_eq!(device.dispatches[1].0, ADD_PIPELINE);
    assert_eq!(device.read(&worker, VALUES), vec![7, 8, 9, 10]);
}

#[test]
fn pending_pipeline_skips_the_cycle() {
    let mut device = Device::default();
    let mut b = declare(&mut device);
    b.add_pass(ADD_SHADER, 0, [4, 1, 1], vec![UNIFORM, VALUES]);
    let mut worker = b.build();
    let pending = AppPipelineCache { pipeline_cache: vec![None] };
    assert_eq!(device.tick(&mut worker, &pending), Err(Error::PipelineNotReady));
    assert!(!worker.ready());
    assert_eq!(device.submits, 0);
    assert!(device.dispatches.is_empty());
    device.tick(&mut worker, &ready_cache()).unwrap();
    assert_eq!(device.submits, 1);
    assert_eq!(device.read(&worker, VALUES), vec![4, 5, 6, 7]);
}

#[test]
fn staging_unmapped_before_next_copy() {
    let mut device = Device::default();
    let mut b = declare(&mut device);
    b.add_pass(ADD_SHADER, 0, [4, 1, 1], vec![UNIFORM, VALUES]);
    let mut worker = b.build();
    let cache = ready_cache();
    let staging = worker.read_raw(VALUES);
    // Created mapped; the cycle's own commands release it before the copy.
    assert!(device.mapped[&staging]);
    worker.extract_pipelines(&cache);
    let cmds = worker.try_run().unwrap();
    let unmap_at = cmds
        .iter()
        .position(|c| matches!(c, Command::Unmap { staging: s } if *s == staging))
        .unwrap();
    let copy_at = cmds
        .iter()
        .position(|c| matches!(c, Command::Copy { staging: s, .. } if *s == staging))
        .unwrap();
    assert!(unmap_at < copy_at);
    device.perform(cmds);
    assert!(device.mapped[&staging]);
    worker.finish_run(true);
    // The next tick's unmap step runs before its copy.
    let unmaps = worker.unmap_all();
    assert_eq!(unmaps.len(), 1);
    device.perform(unmaps);
    assert!(!device.mapped[&staging]);
    let cmds = worker.try_run().unwrap();
    assert!(!cmds.iter().any(|c| matches!(c, Command::Unmap { .. })));
    device.perform(cmds);
    worker.finish_run(true);
    assert_eq!(device.read(&worker, VALUES), vec![7, 8, 9, 10]);
}

#[test]
fn swap_twice_restores_buffers() {
    let mut b = AppComputeWorkerBuilder::new();
    b.add_storage(0, 4);
    b.add_storage(1, 4);
    b.add_swap(0, 1).add_swap(0, 1);
    let mut worker = b.build();
    let before = (worker.try_write(0, vec![]).unwrap(), worker.try_write(1, vec![]).unwrap());
    let cmds = worker.try_run().unwrap();
    assert_eq!(cmds.len(), 2);
    assert!(matches!(cmds[0], Command::Submit));
    assert!(matches!(cmds[1], Command::NewEncoder));
    let after = (worker.try_write(0, vec![]).unwrap(), worker.try_write(1, vec![]).unwrap());
    assert_eq!(format!("{before:?}"), format!("{after:?}"));
}

#[test]
fn single_swap_exchanges_buffers() {
    let mut b = AppComputeWorkerBuilder::new();
    let (a0, _, _) = b.add_storage(0, 4);
    let (a1, _, _) = b.add_storage(1, 4);
    b.add_swap(0, 1);
    let mut worker = b.build();
    worker.try_run().unwrap();
    assert!(matches!(worker.write(0, vec![]), Command::Write { allocation, .. } if allocation == a1));
    assert!(matches!(worker.write(1, vec![]), Command::Write { allocation, .. } if allocation == a0));
}

#[test]
fn one_shot_runs_only_on_request() {
    let mut device = Device::default();
    let mut b = declare(&mut device);
    b.add_pass(ADD_SHADER, 0, [4, 1, 1], vec![UNIFORM, VALUES]).one_shot();
    let mut worker = b.build();
    assert_eq!(worker.run_mode(), RunMode::OneShot(false));
    let cache = ready_cache();
    device.tick(&mut worker, &cache).unwrap();
    assert_eq!(device.submits, 0);
    assert!(!worker.ready());
    worker.execute();
    worker.execute();
    assert_eq!(worker.run_mode(), RunMode::OneShot(true));
    device.tick(&mut worker, &cache).unwrap();
    assert_eq!(device.submits, 1);
    assert!(worker.ready());
    assert_eq!(worker.run_mode(), RunMode::OneShot(false));
    device.tick(&mut worker, &cache).unwrap();
    device.tick(&mut worker, &cache).unwrap();
    assert_eq!(device.submits, 1);
    assert_eq!(device.read(&worker, VALUES), vec![4, 5, 6, 7]);
}

#[test]
fn continuous_runs_every_tick() {
    let mut device = Device::default();
    let mut b = declare(&mut device);
    b.add_pass(ADD_SHADER, 0, [4, 1, 1], vec![UNIFORM, VALUES]).set_wait_mode(false);
    let mut worker = b.build();
    assert!(!worker.poll_blocks());
    let cache = ready_cache();
    device.tick(&mut worker, &cache).unwrap();
    device.tick(&mut worker, &cache).unwrap();
    device.tick(&mut worker, &cache).unwrap();
    assert_eq!(device.submits, 3);
    assert_eq!(device.encoders, 3);
    assert_eq!(device.read(&worker, VALUES), vec![10, 11, 12, 13]);
}

#[test]
fn busy_device_holds_the_next_cycle() {
    let mut device = Device::default();
    let mut b = declare(&mut device);
    b.add_pass(ADD_SHADER, 0, [4, 1, 1], vec![UNIFORM, VALUES]);
    let mut worker = b.build();
    worker.extract_pipelines(&ready_cache());
    let cmds = worker.try_run().unwrap();
    device.perform(cmds);
    worker.finish_run(false);
    assert!(!worker.ready());
    assert!(worker.unmap_all().is_empty());
    assert!(worker.try_run().unwrap().is_empty());
    worker.finish_run(true);
    assert!(worker.ready());
    // Results stay readable for one tick, then the next cycle starts.
    let cmds = worker.try_run().unwrap();
    assert!(!worker.ready());
    assert!(!cmds.is_empty());
}

#[test]
fn set_dispatch_size_changes_only_its_pass() {
    let mut device = Device::default();
    let mut b = declare(&mut device);
    b.add_pass(ADD_SHADER, 0, [4, 1, 1], vec![UNIFORM, VALUES])
        .add_pass(SQUARE_SHADER, 1, [4, 1, 1], vec![VALUES]);
    let mut worker = b.build();
    worker.set_dispatch_size(ADD_SHADER, [2, 1, 1]);
    device.tick(&mut worker, &ready_cache()).unwrap();
    assert_eq!(device.dispatches[0].2, [2, 1, 1]);
    assert_eq!(device.dispatches[1].2, [4, 1, 1]);
    assert_eq!(device.read(&worker, VALUES), vec![16, 25, 9, 16]);
}

#[test]
fn set_dispatch_size_targets_latest_pass_of_shader() {
    let mut b = AppComputeWorkerBuilder::new();
    b.add_storage(0, 4);
    b.add_pass(ADD_SHADER, 0, [1, 1, 1], vec![0])
        .add_pass(ADD_SHADER, 0, [1, 1, 1], vec![0]);
    let mut worker = b.build();
    worker.set_dispatch_size(ADD_SHADER, [8, 2, 1]);
    worker.extract_pipelines(&AppPipelineCache { pipeline_cache: vec![Some(ADD_PIPELINE)] });
    let cmds = worker.try_run().unwrap();
    let sizes: Vec<[u32; 3]> = cmds
        .iter()
        .filter_map(|c| match c {
            Command::Dispatch { workgroups, .. } => Some(*workgroups),
            _ => None,
        })
        .collect();
    assert_eq!(sizes, vec![[1, 1, 1], [8, 2, 1]]);
}

#[test]
fn set_dispatch_size_unknown_shader() {
    let mut b = AppComputeWorkerBuilder::new();
    b.add_storage(0, 4);
    b.add_pass(ADD_SHADER, 0, [1, 1, 1], vec![0]).add_swap(0, 0);
    let mut worker = b.build();
    assert_eq!(worker.try_set_dispatch_size(SQUARE_SHADER, [2, 2, 2]), Err(Error::ShaderNotFound(SQUARE_SHADER)));
}

#[test]
fn untouched_buffer_reads_back_written_value() {
    let mut device = Device::default();
    let mut b = declare(&mut device);
    let ((o, _), (ost, _)) = b.add_staging(OTHER, 8);
    device.create(o, le_bytes(&[0, 0]));
    device.create_staging(ost, 8);
    b.add_pass(ADD_SHADER, 0, [4, 1, 1], vec![UNIFORM, VALUES]);
    let mut worker = b.build();
    let write = worker.try_write(OTHER, le_bytes(&[41, 42])).unwrap();
    device.perform(vec![write]);
    device.tick(&mut worker, &ready_cache()).unwrap();
    assert_eq!(device.read(&worker, OTHER), vec![41, 42]);
    assert_eq!(device.read(&worker, VALUES), vec![4, 5, 6, 7]);
}

#[test]
fn write_targets_the_registered_allocation() {
    let mut b = AppComputeWorkerBuilder::new();
    let (u, _, _) = b.add_uniform(UNIFORM, 4);
    let worker = b.build();
    match worker.write(UNIFORM, vec![9, 0, 0, 0]) {
        Command::Write { allocation, bytes } => {
            assert_eq!(allocation, u);
            assert_eq!(bytes, vec![9, 0, 0, 0]);
        }
        other => panic!("unexpected {other:?}"),
    }
    assert!(matches!(worker.try_write(VALUES, vec![1]), Err(Error::BufferNotFound(VALUES))));
    assert!(matches!(worker.try_write(99, vec![1]), Err(Error::BufferNotFound(99))));
}

#[test]
fn read_requires_a_staging_buffer() {
    let mut device = Device::default();
    let b = declare(&mut device);
    let worker = b.build();
    assert!(worker.try_read_raw(VALUES).is_ok());
    assert_eq!(worker.try_read_raw(UNIFORM), Err(Error::StagingBufferNotFound(UNIFORM)));
    assert_eq!(worker.try_read_raw(42), Err(Error::StagingBufferNotFound(42)));
}

#[test]
fn replacing_a_buffer_releases_the_old_allocation() {
    let mut b = AppComputeWorkerBuilder::new();
    let (first, old, _) = b.add_uniform(UNIFORM, 4);
    assert_eq!(old, None);
    let mut worker = b.build();
    let (second, old, _) = worker.add_uniform(UNIFORM, 8);
    assert_eq!(old, Some(first));
    assert_ne!(second, first);
    let (third, old, _) = worker.add_storage(UNIFORM, 8);
    assert_eq!(old, Some(second));
    let (_, old, _) = worker.add_rw_storage(UNIFORM, 8);
    assert_eq!(old, Some(third));
    let ((buf, old_buf), (st, old_st)) = worker.add_staging(VALUES, 16);
    assert_eq!((old_buf, old_st), (None, None));
    let ((_, old_buf), (_, old_st)) = worker.add_staging(VALUES, 16);
    assert_eq!((old_buf, old_st), (Some(buf), Some(st)));
}

#[test]
fn missing_buffer_in_pass_is_fatal() {
    let mut b = AppComputeWorkerBuilder::new();
    b.add_storage(0, 4);
    b.add_pass(ADD_SHADER, 0, [1, 1, 1], vec![0, 5]);
    let mut worker = b.build();
    worker.extract_pipelines(&AppPipelineCache { pipeline_cache: vec![Some(ADD_PIPELINE)] });
    let err = worker.try_run().unwrap_err();
    assert_eq!(err, Error::BufferNotFound(5));
    assert!(!err.is_transient());
    assert!(Error::PipelineNotReady.is_transient());
}

#[test]
fn missing_buffer_in_swap_is_fatal() {
    let mut b = AppComputeWorkerBuilder::new();
    b.add_storage(0, 4);
    b.add_swap(0, 3);
    let mut worker = b.build();
    assert_eq!(worker.try_run().unwrap_err(), Error::BufferNotFound(3));
    let mut b = AppComputeWorkerBuilder::new();
    b.add_swap(2, 0);
    let mut worker = b.build();
    assert_eq!(worker.try_run().unwrap_err(), Error::BufferNotFound(2));
}

#[test]
fn execute_rejects_immediate_mode() {
    let mut b = AppComputeWorkerBuilder::new();
    b.immediate();
    let mut worker = b.build();
    assert_eq!(worker.run_mode(), RunMode::Immediate);
    assert_eq!(worker.try_execute(), Err(Error::WrongRunMode));
    let mut b = AppComputeWorkerBuilder::new();
    b.continuous();
    let mut worker = b.build();
    assert_eq!(worker.try_execute(), Ok(()));
    let cache = ready_cache();
    assert!(matches!(worker.try_execute_now(&cache), Err(Error::WrongRunMode)));
}

#[test]
fn execute_now_runs_synchronously() {
    let mut device = Device::default();
    let mut b = declare(&mut device);
    b.add_pass(ADD_SHADER, 0, [4, 1, 1], vec![UNIFORM, VALUES]).immediate();
    let mut worker = b.build();
    assert!(worker.poll_blocks());
    let pending = AppPipelineCache { pipeline_cache: vec![None] };
    assert!(matches!(worker.try_execute_now(&pending), Ok(None)));
    assert!(worker.execute_now(&pending).is_none());
    let cmds = worker.execute_now(&ready_cache()).unwrap();
    device.perform(cmds);
    assert_eq!(device.read(&worker, VALUES), vec![4, 5, 6, 7]);
    let cmds = worker.try_execute_now(&ready_cache()).unwrap().unwrap();
    device.perform(cmds);
    assert_eq!(device.read(&worker, VALUES), vec![7, 8, 9, 10]);
    assert_eq!(device.submits, 2);
    assert_eq!(device.encoders, 2);
}

#[test]
fn submission_opens_a_fresh_encoder() {
    let mut device = Device::default();
    let mut b = declare(&mut device);
    b.add_pass(ADD_SHADER, 0, [4, 1, 1], vec![UNIFORM, VALUES]);
    let mut worker = b.build();
    worker.extract_pipelines(&ready_cache());
    let cmds = worker.run().unwrap();
    let n = cmds.len();
    assert!(matches!(cmds[n - 3], Command::Submit));
    assert!(matches!(cmds[n - 2], Command::MapRead { .. }));
    assert!(matches!(cmds[n - 1], Command::NewEncoder));
    device.perform(cmds);
    assert_eq!(device.encoders, 1);
    // The device is still busy: no new cycle, and no encoder is needed.
    worker.finish_run(false);
    assert!(worker.run().unwrap().is_empty());
}

#[test]
fn read_requires_a_mapped_staging_buffer() {
    let mut device = Device::default();
    let mut b = declare(&mut device);
    b.add_pass(ADD_SHADER, 0, [4, 1, 1], vec![UNIFORM, VALUES]);
    let mut worker = b.build();
    device.tick(&mut worker, &ready_cache()).unwrap();
    assert!(worker.try_read_raw(VALUES).is_ok());
    // The next tick's unmap step releases the mapping: reads fail until the
    // next cycle maps the buffer again.
    device.perform(worker.unmap_all());
    assert_eq!(worker.try_read_raw(VALUES), Err(Error::StagingBufferNotFound(VALUES)));
    device.perform(worker.try_run().unwrap());
    worker.finish_run(true);
    assert_eq!(device.read(&worker, VALUES), vec![7, 8, 9, 10]);
}

#[test]
fn readback_copies_the_staging_size() {
    let mut b = AppComputeWorkerBuilder::new();
    let ((_, _), (st, _)) = b.add_staging(VALUES, 16);
    let mut worker = b.build();
    // A read/write buffer of the same size keeps the pairing.
    let (same, old, dropped) = worker.add_rw_storage(VALUES, 16);
    assert!(old.is_some());
    assert_eq!(dropped, None);
    let cmds = worker.try_run().unwrap();
    let copies: Vec<(u64, u64, u64)> = cmds
        .iter()
        .filter_map(|c| match c {
            Command::Copy { source, staging, size } => Some((*source, *staging, *size)),
            _ => None,
        })
        .collect();
    assert_eq!(copies, vec![(same, st, 16)]);
}

#[test]
fn unfit_buffer_drops_the_staging_pairing() {
    let mut b = AppComputeWorkerBuilder::new();
    let ((_, _), (st, _)) = b.add_staging(VALUES, 16);
    let (_, _, dropped) = b.add_rw_storage(VALUES, 32);
    assert_eq!(dropped, Some(st));
    let ((_, _), (st2, _)) = b.add_staging(OTHER, 8);
    let (_, _, dropped) = b.add_uniform(OTHER, 8);
    assert_eq!(dropped, Some(st2));
    let mut worker = b.build();
    assert_eq!(worker.try_read_raw(VALUES), Err(Error::StagingBufferNotFound(VALUES)));
    let cmds = worker.try_run().unwrap();
    assert!(!cmds.iter().any(|c| matches!(c, Command::Copy { .. })));
}

#[test]
fn swap_that_breaks_a_staging_pairing_is_fatal() {
    let mut b = AppComputeWorkerBuilder::new();
    b.add_staging(VALUES, 16);
    b.add_storage(OTHER, 16);
    b.add_swap(VALUES, OTHER);
    let mut worker = b.build();
    assert_eq!(worker.try_run().unwrap_err(), Error::StagingMismatch);
    // Two read/write buffers of one size may be swapped.
    let mut b = AppComputeWorkerBuilder::new();
    b.add_staging(VALUES, 16);
    b.add_rw_storage(OTHER, 16);
    b.add_swap(VALUES, OTHER);
    let mut worker = b.build();
    assert!(worker.try_run().is_ok());
}

#[test]
fn cache_lookup_by_ticket() {
    let cache = AppPipelineCache { pipeline_cache: vec![None, Some(5), Some(6)] };
    assert_eq!(cache.get_compute_pipeline(0), None);
    assert_eq!(cache.get_compute_pipeline(1), Some(5));
    assert_eq!(cache.get_compute_pipeline(2), Some(6));
    assert_eq!(cache.get_compute_pipeline(3), None);
}

#[test]
fn resolved_pipelines_are_kept() {
    let mut b = AppComputeWorkerBuilder::new();
    b.add_storage(0, 4);
    b.add_pass(SQUARE_SHADER, 0, [1, 1, 1], vec![0]);
    let mut worker = b.build();
    worker.extract_pipelines(&AppPipelineCache { pipeline_cache: vec![Some(SQUARE_PIPELINE)] });
    // A later cache with another entry for the ticket does not replace it.
    worker.extract_pipelines(&AppPipelineCache { pipeline_cache: vec![Some(ADD_PIPELINE)] });
    let cmds = worker.try_run().unwrap();
    assert!(matches!(cmds[0], Command::Dispatch { pipeline, .. } if pipeline == SQUARE_PIPELINE));
}
