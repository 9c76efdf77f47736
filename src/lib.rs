//! Document ingestion core: OCR job queue, source synchronisation, request
//! throttling, scheduling of source passes and routing of extraction work.

use vstd::prelude::*;

pub mod text;
pub mod ocr;
pub mod sync;
pub mod queue;
pub mod throttle;
pub mod schedule;
pub mod users;
pub mod discovery;
pub mod multistatus;
pub mod ingest;

verus! {

/// What the request handlers share: the job queue, the source scheduler and
/// the extraction front end.
pub struct AppState {
    pub queue_service: queue::OcrQueue,
    pub source_scheduler: Option<schedule::SourceScheduler>,
    pub ocr: ocr::OcrService,
}

} // verus!
