//! Change notification for a transactional store: subscriptions to sets of
//! attributes, the notifications that a commit owes them, and the records in
//! which a notification crosses the boundary to a caller in another language.

pub mod attributes;
pub mod batch;
pub mod boundary;
pub mod keyword;
pub mod laws;
pub mod observer;
pub mod sorted;

pub use batch::BatchedTransaction;
pub use boundary::AttributeList;
pub use boundary::ExternTxReport;
pub use boundary::ExternTxReportList;
pub use keyword::BoundaryError;
pub use keyword::NamespacedKeyword;
pub use observer::Notification;
pub use observer::TxObservationService;
pub use observer::TxObserver;
