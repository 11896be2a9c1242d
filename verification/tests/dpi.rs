use g502_linux_control::dpi::Step::{Down, Up};
use g502_linux_control::dpi::{apply, apply_batch, batch, collect, dpi_to_set, dpi_to_write, next_batch, step, DpiBackend, Presses};
use g502_linux_control::error::Error;

const STAGES: [u32; 5] = [1000, 1800, 2400, 3200, 4000];

struct Fake {
    dpi: u32,
    writes: Vec<u32>,
}

impl DpiBackend for Fake {
    fn get_dpi(&mut self) -> Result<u32, Error> {
        Ok(self.dpi)
    }
    fn set_dpi(&mut self, dpi: u32) -> Result<(), Error> {
        self.dpi = dpi;
        self.writes.push(dpi);
        Ok(())
    }
}

#[test]
fn single_steps() {
    assert_eq!(step(&STAGES, 1800, Up), 2400);
    assert_eq!(step(&STAGES, 1800, Down), 1000);
}

#[test]
fn boundaries_clamp() {
    assert_eq!(step(&STAGES, 4000, Up), 4000);
    assert_eq!(step(&STAGES, 1000, Down), 1000);
}

#[test]
fn off_stage_values_snap_to_neighbours() {
    assert_eq!(step(&STAGES, 2000, Up), 2400);
    assert_eq!(step(&STAGES, 2000, Down), 1800);
    assert_eq!(step(&STAGES, 500, Up), 1000);
    assert_eq!(step(&STAGES, 500, Down), 500);
    assert_eq!(step(&STAGES, 5000, Up), 5000);
    assert_eq!(step(&STAGES, 5000, Down), 4000);
}

#[test]
fn rapid_ups_do_not_lose_steps() {
    assert_eq!(apply(&STAGES, 1000, &[Up, Up, Up]), 3200);
}

#[test]
fn bursts_clamp_per_step_not_on_the_sum() {
    // Sum is +1 but the first Up is swallowed by the top boundary.
    assert_eq!(apply(&STAGES, 4000, &[Up, Up, Down]), 3200);
    assert_eq!(apply(&STAGES, 1000, &[Down, Down, Up]), 1800);
}

#[test]
fn long_bursts_stay_in_range() {
    let ups = [Up; 50];
    let downs = [Down; 50];
    assert_eq!(apply(&STAGES, 1800, &ups), 4000);
    assert_eq!(apply(&STAGES, 3200, &downs), 1000);
}

#[test]
fn burst_is_one_write() {
    let mut b = Fake { dpi: 1000, writes: vec![] };
    let r = apply_batch(&mut b, &STAGES, &[Up, Up, Up]).unwrap();
    assert_eq!(r, Some((1000, 3200)));
    assert_eq!(b.writes, vec![3200]);
}

#[test]
fn no_write_when_nothing_changes() {
    let mut b = Fake { dpi: 4000, writes: vec![] };
    assert_eq!(apply_batch(&mut b, &STAGES, &[Up, Up]).unwrap(), None);
    let mut b = Fake { dpi: 1800, writes: vec![] };
    assert_eq!(apply_batch(&mut b, &STAGES, &[Up, Down]).unwrap(), None);
    assert!(b.writes.is_empty());
}

#[test]
fn queued_presses_become_one_batch_and_one_write() {
    let (tx, rx) = std::sync::mpsc::channel();
    for s in [Up, Up, Up] {
        tx.send(s).unwrap();
    }
    let batch = next_batch(&rx).unwrap();
    assert_eq!(batch, vec![Up, Up, Up]);
    let mut b = Fake { dpi: 1000, writes: vec![] };
    apply_batch(&mut b, &STAGES, &batch).unwrap();
    assert_eq!((b.dpi, b.writes.len()), (3200, 1));
}

#[test]
fn idle_press_is_not_delayed_or_merged() {
    let (tx, rx) = std::sync::mpsc::channel();
    tx.send(Down).unwrap();
    assert_eq!(next_batch(&rx).unwrap(), vec![Down]);
    drop(tx);
    assert_eq!(next_batch(&rx), None);
}

#[test]
fn sequential_batches_see_each_others_result() {
    let mut b = Fake { dpi: 1000, writes: vec![] };
    apply_batch(&mut b, &STAGES, &[Up]).unwrap();
    apply_batch(&mut b, &STAGES, &[Up, Up]).unwrap();
    assert_eq!(b.dpi, 3200);
}

#[test]
fn a_batch_keeps_the_order_of_presses() {
    assert_eq!(batch(Up, &[Down, Down, Up]), vec![Up, Down, Down, Up]);
    assert_eq!(batch(Down, &[]), vec![Down]);
}

#[test]
fn up_and_down_cancel_between_stages() {
    for i in 0..4 {
        assert_eq!(step(&STAGES, STAGES[i], Up), STAGES[i + 1]);
        assert_eq!(step(&STAGES, STAGES[i + 1], Down), STAGES[i]);
    }
}

#[test]
fn splitting_a_burst_changes_nothing() {
    let all = [Up, Up, Down, Up, Down, Down, Down, Up];
    for cut in 0..=all.len() {
        let first = apply(&STAGES, 2000, &all[..cut]);
        assert_eq!(apply(&STAGES, first, &all[cut..]), apply(&STAGES, 2000, &all));
    }
}

#[test]
fn higher_stays_higher() {
    for low in [0, 999, 1000, 1500, 4000, 9000] {
        for high in [low, low + 1, low + 800, low + 5000] {
            assert!(step(&STAGES, low, Up) <= step(&STAGES, high, Up));
            assert!(step(&STAGES, low, Down) <= step(&STAGES, high, Down));
        }
    }
}

struct Broken {
    readable: bool,
    asked: Vec<u32>,
}

impl DpiBackend for Broken {
    fn get_dpi(&mut self) -> Result<u32, Error> {
        if self.readable {
            Ok(1800)
        } else {
            Err(Error::new("gone".to_string()))
        }
    }
    fn set_dpi(&mut self, dpi: u32) -> Result<(), Error> {
        self.asked.push(dpi);
        Err(Error::new("refused".to_string()))
    }
}

#[test]
fn a_backend_that_fails_is_reported() {
    let mut b = Broken { readable: false, asked: vec![] };
    assert_eq!(apply_batch(&mut b, &STAGES, &[Up]).unwrap_err().to_string(), "gone");
    assert!(b.asked.is_empty());
    let mut b = Broken { readable: true, asked: vec![] };
    assert_eq!(apply_batch(&mut b, &STAGES, &[Up]).unwrap_err().to_string(), "refused");
    assert_eq!(b.asked, vec![2400]);
}

#[test]
fn presses_of_one_channel_arrive_in_one_batch() {
    let (tx, rx) = std::sync::mpsc::channel();
    for _ in 0..29 {
        tx.send(Up).unwrap();
    }
    assert_eq!(next_batch(&rx).unwrap().len(), 29);
    tx.send(Down).unwrap();
    assert_eq!(next_batch(&rx).unwrap(), vec![Down]);
}

#[test]
fn a_batch_writes_only_a_new_dpi() {
    assert_eq!(dpi_to_write(&STAGES, 1000, &[Up, Up]), Some(2400));
    assert_eq!(dpi_to_write(&STAGES, 4000, &[Up]), None);
    assert_eq!(dpi_to_write(&STAGES, 1800, &[Up, Down]), None);
    assert_eq!(dpi_to_write(&STAGES, 2000, &[Up, Down]), Some(1800));
}

#[test]
fn a_dpi_is_set_only_where_it_is_new() {
    assert_eq!(dpi_to_set(1000, 1800), Some(1800));
    assert_eq!(dpi_to_set(1800, 1800), None);
}

#[test]
fn a_channel_gives_every_press_in_order() {
    let (tx, rx) = std::sync::mpsc::channel();
    for s in [Up, Down, Down, Up] {
        tx.send(s).unwrap();
    }
    let (batch, presses) = collect(Presses::new(&rx));
    assert_eq!(batch.unwrap(), vec![Up, Down, Down, Up]);
    tx.send(Down).unwrap();
    drop(tx);
    let (batch, presses) = collect(presses);
    assert_eq!(batch.unwrap(), vec![Down]);
    assert!(collect(presses).0.is_none());
}

#[test]
fn enough_presses_reach_the_ends() {
    assert_eq!(apply(&STAGES, 500, &[Up; 5]), 4000);
    assert_eq!(apply(&STAGES, 5000, &[Up; 5]), 5000);
    assert_eq!(apply(&STAGES, 5000, &[Down; 5]), 1000);
    assert_eq!(apply(&STAGES, 500, &[Down; 5]), 500);
}
