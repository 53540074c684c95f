//! The asynchronous render scheduler: monotonically increasing request
//! identifiers, per-request genome snapshots, and latest-wins delivery.
//!
//! The scheduler owns the current genome and a single "latest
//! authoritative response" slot.  Every `set_genome` or `render` call
//! advances the request counter, which silently makes every earlier
//! request stale.  A completed response is installed into the slot only if
//! its identifier still equals the counter; a query returns the slot's
//! image only under the same condition and clears the slot.  A stale
//! job's result is therefore never observable, however late it finishes.
//!
//! The scheduler itself is synchronous: `render` returns the immutable
//! job description, a worker (wherever the caller runs it) calls
//! `RenderRequest::run`, and the response comes back through `complete`.

use vstd::prelude::*;

verus! {

use crate::colormapper::table_spec;
use crate::fastmath::Frac;
use crate::formulas::decoded_formulas;
use crate::genetics::{genome_wf, Genome};
use crate::renderer::{render_bytes, time_fp, Image, PlasmaRenderer};
use crate::settings::RenderingSettings;

/// The next request identifier: the counter advances by one and wraps.
pub open spec fn next_id(id: u32) -> u32 {
    ((id + 1) % 0x1_0000_0000) as u32
}

/// One render job: an identifier, an immutable genome and settings
/// snapshot, the target dimensions and the time value.
#[derive(Debug)]
pub struct RenderRequest {
    pub request_id: u32,
    pub genome: Genome,
    pub settings: RenderingSettings,
    pub width: usize,
    pub height: usize,
    pub time: Frac,
}

/// A computed image, tagged with its originating request.
#[derive(Debug)]
pub struct RenderResponse {
    pub request_id: u32,
    pub image: Image,
}

impl RenderRequest {
    pub open spec fn wf(self) -> bool {
        &&& genome_wf(self.genome@)
        &&& 1 <= self.width <= 1048576
        &&& 1 <= self.height <= 1048576
        &&& self.width * self.height * 3 <= usize::MAX
        &&& self.time.wf()
    }

    /// The bytes this job must compute: a fresh renderer from the
    /// snapshot, run at the job's time and dimensions.
    pub open spec fn expected_bytes(self) -> Seq<u8> {
        render_bytes(
            table_spec(self.genome@.color),
            decoded_formulas(self.genome@.pattern),
            self.settings.dithering,
            self.width as int,
            self.height as int,
            time_fp(self.time),
        )
    }

    /// Computes the job: builds one private renderer from the snapshot
    /// and fills one image.  The response carries the job's identifier
    /// and exactly the bytes `expected_bytes` states.
    pub fn run(&self) -> (resp: RenderResponse)
        requires
            self.wf(),
        ensures
            resp.request_id == self.request_id,
            resp.image.wf(),
            resp.image.width == self.width,
            resp.image.height == self.height,
            resp.image.pixel_data@ == self.expected_bytes(),
    {
        let mut renderer = PlasmaRenderer::new(&self.genome, &self.settings);
        let mut image = Image::new(self.width, self.height);
        renderer.render(&mut image, self.time);
        RenderResponse { request_id: self.request_id, image }
    }
}

/// Issues render jobs and surfaces only the freshest completed result.
#[derive(Debug)]
pub struct AsyncRenderer {
    pub last_request_id: u32,
    pub genome: Option<Genome>,
    pub settings: RenderingSettings,
    pub latest: Option<RenderResponse>,
}

impl AsyncRenderer {
    pub open spec fn wf(self) -> bool {
        &&& match self.genome {
            Some(g) => genome_wf(g@),
            None => true,
        }
        &&& self.settings.wf()
    }

    /// A fresh scheduler: no genome yet, no pending result, counter at
    /// zero.
    pub fn new(settings: &RenderingSettings) -> (r: AsyncRenderer)
        requires
            settings.wf(),
        ensures
            r.wf(),
            r.last_request_id == 0,
            r.genome is None,
            r.latest is None,
            r.settings == *settings,
    {
        AsyncRenderer { last_request_id: 0, genome: None, settings: *settings, latest: None }
    }

    /// Stores a genome snapshot and advances the request counter, so
    /// every request issued before this call is stale from here on.
    pub fn set_genome(&mut self, genome: &Genome)
        requires
            old(self).wf(),
            genome_wf(genome@),
        ensures
            final(self).wf(),
            final(self).genome matches Some(g) && g@ == genome@,
            final(self).last_request_id == next_id(old(self).last_request_id),
            final(self).settings == old(self).settings,
            final(self).latest == old(self).latest,
    {
        self.genome = Some(genome.duplicate());
        self.last_request_id = self.last_request_id.wrapping_add(1);
    }

    /// Issues a fresh render job: advances the counter, snapshots the
    /// current genome and settings.  Requires a genome to have been set.
    pub fn render(&mut self, width: usize, height: usize, time: Frac) -> (req: RenderRequest)
        requires
            old(self).wf(),
            old(self).genome is Some,
            1 <= width <= 1048576,
            1 <= height <= 1048576,
            width * height * 3 <= usize::MAX,
            time.wf(),
        ensures
            final(self).wf(),
            final(self).last_request_id == next_id(old(self).last_request_id),
            final(self).genome == old(self).genome,
            final(self).settings == old(self).settings,
            final(self).latest == old(self).latest,
            req.wf(),
            req.request_id == final(self).last_request_id,
            old(self).genome matches Some(g) && req.genome@ == g@,
            req.settings == old(self).settings,
            req.width == width,
            req.height == height,
            req.time == time,
    {
        self.last_request_id = self.last_request_id.wrapping_add(1);
        let genome = match &self.genome {
            Some(g) => g.duplicate(),
            None => vstd::pervasive::unreached(),
        };
        RenderRequest {
            request_id: self.last_request_id,
            genome,
            settings: self.settings,
            width,
            height,
            time,
        }
    }

    /// Offers a completed response.  It is installed as the latest
    /// result only if its request is still the current one; a stale
    /// response is dropped and never observable.
    pub fn complete(&mut self, response: RenderResponse)
        ensures
            final(self).last_request_id == old(self).last_request_id,
            final(self).genome == old(self).genome,
            final(self).settings == old(self).settings,
            response.request_id == old(self).last_request_id ==> final(self).latest == Some(
                response,
            ),
            response.request_id != old(self).last_request_id ==> final(self).latest == old(
                self,
            ).latest,
    {
        if response.request_id == self.last_request_id {
            self.latest = Some(response);
        }
    }

    /// The current image: the stored response's image if that response
    /// is authoritative (its request is still the current one), and
    /// nothing otherwise.  Returning the image clears the slot.
    pub fn get_image(&mut self) -> (r: Option<Image>)
        ensures
            final(self).last_request_id == old(self).last_request_id,
            final(self).genome == old(self).genome,
            final(self).settings == old(self).settings,
            match old(self).latest {
                Some(resp) => {
                    if resp.request_id == old(self).last_request_id {
                        r == Some(resp.image) && final(self).latest is None
                    } else {
                        r is None && final(self).latest == old(self).latest
                    }
                },
                None => r is None && final(self).latest == old(self).latest,
            },
    {
        let authoritative = match &self.latest {
            Some(resp) => resp.request_id == self.last_request_id,
            None => false,
        };
        if authoritative {
            match self.latest.take() {
                Some(resp) => Some(resp.image),
                None => vstd::pervasive::unreached(),
            }
        } else {
            None
        }
    }
}

/// Law: the scheduler path and the direct path agree — for one genome,
/// settings, time and dimensions, the image a scheduler job computes is
/// byte-identical to the image a direct synchronous renderer produces.
pub proof fn lemma_scheduler_equivalence(req: RenderRequest, resp: RenderResponse, direct: Seq<u8>)
    requires
        resp.image.pixel_data@ == req.expected_bytes(),
        direct == render_bytes(
            table_spec(req.genome@.color),
            decoded_formulas(req.genome@.pattern),
            req.settings.dithering,
            req.width as int,
            req.height as int,
            time_fp(req.time),
        ),
    ensures
        resp.image.pixel_data@ == direct,
{
}

} // verus!
