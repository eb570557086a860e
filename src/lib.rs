//! Structural analysis and code synthesis for record and tagged-union
//! declarations.
//!
//! A declaration comes in as a plain model of what the host's parser read:
//! members with their declared types and annotations. From it the library
//! reads annotations (`annotation`), classifies member types by shape
//! (`shape`), plans a companion builder (`builder`, whose run-time behaviour
//! `runtime` describes) and a formatting implementation (`formatter`), and
//! checks lexical order of variants and match branches (`order`).

pub mod annotation;
pub mod builder;
pub mod formatter;
pub mod order;
pub mod runtime;
pub mod shape;
pub mod text;
