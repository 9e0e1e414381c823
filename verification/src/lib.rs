use vstd::prelude::*;

pub mod asset;
pub mod build_loop;
pub mod cad;
pub mod cad_agent;
pub mod chat;
pub mod contract;
pub mod design;
pub mod errcode;
pub mod gate;
pub mod image_plan;
pub mod imagery;
pub mod json;
pub mod params;
pub mod pricing;
pub mod project;
pub mod provider;
pub mod publish;
pub mod publish_draft;
pub mod research;
pub mod research_flow;
pub mod research_run;
pub mod stage;
pub mod stl;
pub mod store;
pub mod text;
pub mod topology;
pub mod worker;
pub mod xml;

verus! {

} // verus!
