//! The worker: the chain and the mock source behind the messages of the user
//! interface.

use vstd::prelude::*;

use crate::arithmetic::Arithmetic;
use crate::config::{DemodMode, DspConfig};
use crate::mock::MockIqSource;
use crate::pipeline::{DspPipeline, DspResult, WATERFALL_ROWS};

verus! {

/// Rate of the audio that the worker delivers (Hz).
pub const AUDIO_RATE: u32 = 48_000;

/// What the worker makes of a block of raw samples.
pub struct WorkerOutput<A: Arithmetic> {
    pub result: DspResult<A>,
    /// Rows of the waterfall, oldest first.
    pub waterfall: Vec<u8>,
    pub wf_width: u32,
    pub wf_height: u32,
}

/// The worker's state; before it is configured there is nothing in it.
pub struct Worker<A: Arithmetic> {
    pub pipeline: Option<DspPipeline<A>>,
    pub mock: Option<MockIqSource<A>>,
}

/// The configuration that a request to the worker stands for.
pub open spec fn worker_config(sample_rate: u32, fft_size: u32, mode: Seq<char>) -> DspConfig {
    DspConfig {
        sample_rate,
        fft_size: fft_size as usize,
        mode: DemodMode::named(mode),
        audio_rate: AUDIO_RATE,
    }
}

impl<A: Arithmetic> Worker<A> {
    /// The chain is usable, delivers audio at some rate, and its waterfall has the
    /// width of its spectrum, which fits the messages, and its number of rows.
    pub open spec fn valid(self) -> bool {
        self.pipeline matches Some(p) ==> {
            &&& p.valid()
            &&& p.config.audio_rate > 0
            &&& p.config.fft_size <= u32::MAX
            &&& p.waterfall.width == p.config.fft_size
            &&& p.waterfall.height == WATERFALL_ROWS
        }
    }

    /// Whether the worker has just been configured.
    pub open spec fn is_configured(self, sample_rate: u32, fft_size: u32, mode: Seq<char>) -> bool {
        &&& self.pipeline matches Some(p) && p.is_new(worker_config(sample_rate, fft_size, mode))
        &&& self.mock matches Some(m) && exists|rate: A::Real| #[trigger]
            call_ensures(A::integer, (sample_rate as i64,), rate) && m.is_new(rate)
    }

    /// A worker that is not configured.
    pub fn init_worker() -> (res: Worker<A>)
        ensures
            res.valid(),
            res.pipeline is None,
            res.mock is None,
    {
        Worker { pipeline: None, mock: None }
    }

    /// Sets up a new chain and a new mock source.
    pub fn configure(&mut self, sample_rate: u32, fft_size: u32, mode: &str)
        requires
            fft_size * WATERFALL_ROWS * 4 <= isize::MAX,
        ensures
            final(self).valid(),
            final(self).is_configured(sample_rate, fft_size, mode@),
    {
        let config: DspConfig = DspConfig {
            sample_rate,
            fft_size: fft_size as usize,
            mode: DemodMode::from_name(mode),
            audio_rate: AUDIO_RATE,
        };
        self.pipeline = Some(DspPipeline::new(config));
        let rate: A::Real = A::integer(sample_rate as i64);
        self.mock = Some(MockIqSource::new(rate));
    }

    /// Changes the mode of the chain. Sample rate, spectrum size, waterfall and
    /// mock source stay as they are; a worker that is not configured stays as it
    /// is altogether.
    pub fn set_mode(&mut self, mode: &str)
        requires
            old(self).valid(),
        ensures
            final(self).valid(),
            final(self).mock == old(self).mock,
            match old(self).pipeline {
                None => final(self).pipeline is None,
                Some(p) => {
                    &&& final(self).pipeline matches Some(q)
                    &&& q.is_fresh(DspConfig { mode: DemodMode::named(mode@), ..p.config })
                    &&& q.waterfall == p.waterfall
                },
            },
    {
        let mode: DemodMode = DemodMode::from_name(mode);
        match &mut self.pipeline {
            None => {},
            Some(pipeline) => {
                pipeline.set_mode(mode);
            },
        }
    }

    /// Processes a block of raw samples; a worker that is not configured gives
    /// nothing.
    pub fn process_iq(&mut self, data: &[u8]) -> (res: Option<WorkerOutput<A>>)
        requires
            old(self).valid(),
        ensures
            final(self).valid(),
            final(self).mock == old(self).mock,
            match old(self).pipeline {
                None => res is None && final(self).pipeline is None,
                Some(before) => {
                    &&& res matches Some(out)
                    &&& final(self).pipeline matches Some(after)
                    &&& before.is_processed(data@, after, out.result)
                    &&& out.waterfall@ == after.waterfall.ordered()
                    &&& out.wf_width == before.config.fft_size
                    &&& out.wf_height == WATERFALL_ROWS
                },
            },
    {
        match &mut self.pipeline {
            None => None,
            Some(pipeline) => {
                let result: DspResult<A> = pipeline.process(data);
                let waterfall: Vec<u8> = pipeline.waterfall.get_ordered_rows();
                let wf_width: u32 = pipeline.waterfall.width as u32;
                let wf_height: u32 = pipeline.waterfall.height as u32;
                Some(WorkerOutput { result, waterfall, wf_width, wf_height })
            },
        }
    }

    /// Generates raw samples; a worker that is not configured generates none.
    pub fn generate_mock_iq(&mut self, num_bytes: u32) -> (out: Vec<u8>)
        ensures
            final(self).pipeline == old(self).pipeline,
            match old(self).mock {
                None => out@.len() == 0 && final(self).mock is None,
                Some(before) => final(self).mock matches Some(after) && before.is_generated(
                    num_bytes as int / 2,
                    after,
                    out@,
                ),
            },
    {
        match &mut self.mock {
            None => Vec::new(),
            Some(source) => source.generate(num_bytes as usize),
        }
    }
}

/// A configured worker has a chain for the sample rate, spectrum size and mode that
/// were asked for, with audio at 48 kHz and a waterfall of 200 rows, and a source
/// of samples at that rate.
pub proof fn worker_is_set_up_as_asked<A: Arithmetic>(
    worker: Worker<A>,
    sample_rate: u32,
    fft_size: u32,
    mode: Seq<char>,
)
    requires
        worker.is_configured(sample_rate, fft_size, mode),
    ensures
        worker.pipeline matches Some(p) && {
            &&& p.config.sample_rate == sample_rate
            &&& p.config.fft_size == fft_size
            &&& p.config.audio_rate == 48_000
            &&& p.config.mode == DemodMode::NFM <==> mode == seq!['n', 'f', 'm']
            &&& p.config.mode == DemodMode::AM <==> mode == seq!['a', 'm']
            &&& p.waterfall.width == fft_size
            &&& p.waterfall.height == 200
            &&& forall|k: int| 0 <= k < p.waterfall.data@.len() ==> p.waterfall.data@[k] == 0
        },
        worker.mock matches Some(m) && call_ensures(
            A::integer,
            (sample_rate as i64,),
            m.sample_rate,
        ),
{
    crate::config::modes_go_by_their_names(mode);
}

} // verus!
