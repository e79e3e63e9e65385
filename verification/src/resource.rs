//! Identifiers of controls and commands.
use vstd::prelude::*;

verus! {

pub const IDC_STATIC1: i32 = 1001;
pub const IDC_STATIC2: i32 = 1002;
pub const IDC_STATIC3: i32 = 1003;
pub const IDC_STATIC4: i32 = 1004;
pub const IDC_STATIC5: i32 = 1005;
pub const IDC_STATIC6: i32 = 1006;
pub const IDC_STATIC8: i32 = 1008;
pub const IDC_STATIC9: i32 = 1009;
pub const IDC_STATIC10: i32 = 1010;
pub const IDC_STATIC11: i32 = 1011;
pub const IDC_STATIC12: i32 = 1012;
pub const IDC_STATIC13: i32 = 1013;
pub const IDC_STATIC14: i32 = 1014;
pub const IDC_STATIC15: i32 = 1015;
pub const IDC_STATIC16: i32 = 1016;
pub const IDC_STATIC17: i32 = 1017;
pub const IDC_TOTAL_PHYSICAL: i32 = 1021;
pub const IDC_AVAIL_PHYSICAL: i32 = 1022;
pub const IDC_FILE_CACHE: i32 = 1023;
pub const IDC_COMMIT_TOTAL: i32 = 1024;
pub const IDC_COMMIT_LIMIT: i32 = 1025;
pub const IDC_COMMIT_PEAK: i32 = 1026;
pub const IDC_KERNEL_TOTAL: i32 = 1027;
pub const IDC_KERNEL_PAGED: i32 = 1028;
pub const IDC_KERNEL_NONPAGED: i32 = 1029;
pub const IDC_TOTAL_HANDLES: i32 = 1030;
pub const IDC_TOTAL_THREADS: i32 = 1031;
pub const IDC_TOTAL_PROCESSES: i32 = 1032;
pub const IDC_CPUFRAME: i32 = 1041;
pub const IDC_CPUUSAGEFRAME: i32 = 1042;
pub const IDC_CPUMETER: i32 = 1043;
pub const IDC_MEMBARFRAME: i32 = 1044;
pub const IDC_MEMMETER: i32 = 1045;
pub const IDC_MEMFRAME: i32 = 1046;
pub const IDC_MEMGRAPH: i32 = 1047;
/// The first of the processor graphs that the dialog template holds.
pub const IDC_CPUGRAPH: i32 = 1100;
/// How many processor graphs the dialog template holds.
pub const TEMPLATE_CPU_GRAPH_COUNT: usize = 32;
/// The first of the processor graphs that are made at run time.
pub const DYNAMIC_CPU_GRAPH_ID_BASE: i32 = 3000;

/// The button that ends the selected process.
pub const IDC_TERMINATE: u16 = 1201;
/// The button that debugs the selected process.
pub const IDC_DEBUG: u16 = 1202;
pub const IDM_PROC_TERMINATE: u16 = 40001;
pub const IDM_PROC_ENDTREE: u16 = 40002;
pub const IDM_PROC_DEBUG: u16 = 40003;
pub const IDM_PROC_OPENFILELOCATION: u16 = 40004;
pub const IDM_AFFINITY: u16 = 40005;
pub const IDM_PROC_LOW: u16 = 40006;
pub const IDM_PROC_BELOWNORMAL: u16 = 40007;
pub const IDM_PROC_NORMAL: u16 = 40008;
pub const IDM_PROC_ABOVENORMAL: u16 = 40009;
pub const IDM_PROC_HIGH: u16 = 40010;
pub const IDM_PROC_REALTIME: u16 = 40011;
pub const IDM_PROCCOLS: u16 = 40012;

/// The choice of the graphics adapter.
pub const IDC_GPU_SELECTOR: i32 = 1301;
pub const IDC_GPU_MODEL: i32 = 1302;
pub const IDC_GPU_STATUS: i32 = 1303;
/// The first of the choices of an engine.
pub const IDC_GPU_ENGINE_SELECTOR_FIRST: i32 = 1310;
/// The first of the percentages beside them.
pub const IDC_GPU_ENGINE_PERCENT_FIRST: i32 = 1320;
/// The first of the graphs below them.
pub const IDC_GPU_ENGINE_GRAPH_FIRST: i32 = 1330;
pub const IDC_GPU_DEDICATED_CAPTION: i32 = 1340;
pub const IDC_GPU_DEDICATED_GRAPH: i32 = 1341;
pub const IDC_GPU_SHARED_CAPTION: i32 = 1342;
pub const IDC_GPU_SHARED_GRAPH: i32 = 1343;
pub const IDC_GPU_METRICS_GROUP: i32 = 1344;
pub const IDC_GPU_DETAILS_GROUP: i32 = 1345;
pub const IDC_GPU_UTILIZATION_LABEL: i32 = 1351;
pub const IDC_GPU_UTILIZATION_VALUE: i32 = 1352;
pub const IDC_GPU_TOTAL_MEMORY_LABEL: i32 = 1353;
pub const IDC_GPU_TOTAL_MEMORY_VALUE: i32 = 1354;
pub const IDC_GPU_DEDICATED_MEMORY_LABEL: i32 = 1355;
pub const IDC_GPU_DEDICATED_MEMORY_VALUE: i32 = 1356;
pub const IDC_GPU_SHARED_MEMORY_LABEL: i32 = 1357;
pub const IDC_GPU_SHARED_MEMORY_VALUE: i32 = 1358;
pub const IDC_GPU_TEMPERATURE_LABEL: i32 = 1359;
pub const IDC_GPU_TEMPERATURE_VALUE: i32 = 1360;
pub const IDC_GPU_DRIVER_VERSION_LABEL: i32 = 1361;
pub const IDC_GPU_DRIVER_VERSION_VALUE: i32 = 1362;
pub const IDC_GPU_DRIVER_DATE_LABEL: i32 = 1363;
pub const IDC_GPU_DRIVER_DATE_VALUE: i32 = 1364;
pub const IDC_GPU_DIRECTX_LABEL: i32 = 1365;
pub const IDC_GPU_DIRECTX_VALUE: i32 = 1366;
pub const IDC_GPU_LOCATION_LABEL: i32 = 1367;
pub const IDC_GPU_LOCATION_VALUE: i32 = 1368;
pub const IDC_GPU_RESERVED_MEMORY_LABEL: i32 = 1369;
pub const IDC_GPU_RESERVED_MEMORY_VALUE: i32 = 1370;

/// The choice of the processor group.
pub const IDC_AFFINITY_GROUP_SELECTOR: i32 = 1401;
/// The first of the boxes for the processors of a group.
pub const IDC_CPU0: i32 = 1410;

} // verus!
