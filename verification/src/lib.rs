pub mod text;
pub mod scan;
pub mod update_check;
pub mod profiles;
pub mod control_process;
pub mod sort;
pub mod usb_control;
pub mod network_control;
pub mod command;
pub mod system_control;
pub mod window_control;
pub mod storage_explorer;
pub mod systemd_control;
pub mod docker_control;
pub mod db;
pub mod monitor;
pub mod projects;
pub mod namespace_control;
pub mod gpu_control;
