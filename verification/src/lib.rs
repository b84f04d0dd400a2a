pub mod analyzer;
pub mod builders;
pub mod decoded;
pub mod frame_645;
pub mod frame_cco;
pub mod frame_csg;
pub mod frame_csg_history;
pub mod frame_csg_task;
pub mod frame_csg_units;
pub mod frame_err;
pub mod frame_fun;
pub mod frame_moudle;
pub mod frame_speecial;
pub mod frame_tctask;
pub mod oadmapconfig;
pub mod offset_law;
pub mod protocol;
pub mod text;
pub mod xmlconfig;
pub mod xmlload;
