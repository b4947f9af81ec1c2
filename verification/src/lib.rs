pub mod bundler_laws;
pub mod drain;
pub mod drain_laws;
pub mod facts;
pub mod orchestrator;
pub mod order;
pub mod page;
pub mod path;
pub mod path_laws;
pub mod path_map;
pub mod pipeline;
pub mod plan;
pub mod plan_laws;
pub mod planning_laws;
pub mod plugin_bundler;
pub mod plugin_refresh;
pub mod refresh_laws;
pub mod text;
pub mod text_laws;
pub mod text_map;
pub mod tick;
pub mod tick_run;
pub mod ticking_laws;
