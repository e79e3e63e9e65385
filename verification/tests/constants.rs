use taskmgr::applications::icons::MAX_TASK_ICON_WORKERS;
use taskmgr::cpu::features::{PF_SECOND_LEVEL_ADDRESS_TRANSLATION, PF_VIRT_FIRMWARE_ENABLED};
use taskmgr::gpu::controls as scroll;
use taskmgr::gpu::inventory;
use taskmgr::gpu::metadata;
use taskmgr::gpu::selection::CBN_SELCHANGE;
use taskmgr::processes::actions::IDYES;
use taskmgr::processes::debugger;
use taskmgr::processes::model;
use taskmgr::processes::tree::WAIT_OBJECT_0;
use taskmgr::win32;
use windows_sys::Wdk::Graphics::Direct3D as kmt;
use windows_sys::Win32::Devices::Properties as properties;
use windows_sys::Win32::Foundation as foundation;
use windows_sys::Win32::System::Performance as performance;
use windows_sys::Win32::System::Registry as registry;
use windows_sys::Win32::System::SystemInformation as system;
use windows_sys::Win32::System::Threading as threading;
use windows_sys::Win32::UI::WindowsAndMessaging as windows;

#[test]
fn error_codes_are_those_of_the_system() {
    assert_eq!(win32::ERROR_SUCCESS, foundation::ERROR_SUCCESS);
    assert_eq!(win32::ERROR_FILE_NOT_FOUND, foundation::ERROR_FILE_NOT_FOUND);
    assert_eq!(win32::ERROR_PATH_NOT_FOUND, foundation::ERROR_PATH_NOT_FOUND);
    assert_eq!(win32::ERROR_ACCESS_DENIED, foundation::ERROR_ACCESS_DENIED);
    assert_eq!(win32::ERROR_INVALID_HANDLE, foundation::ERROR_INVALID_HANDLE);
    assert_eq!(win32::ERROR_INVALID_DATA, foundation::ERROR_INVALID_DATA);
    assert_eq!(win32::ERROR_NO_MORE_FILES, foundation::ERROR_NO_MORE_FILES);
    assert_eq!(win32::ERROR_GEN_FAILURE, foundation::ERROR_GEN_FAILURE);
    assert_eq!(win32::ERROR_NOT_SUPPORTED, foundation::ERROR_NOT_SUPPORTED);
    assert_eq!(win32::ERROR_INVALID_PARAMETER, foundation::ERROR_INVALID_PARAMETER);
    assert_eq!(win32::ERROR_BROKEN_PIPE, foundation::ERROR_BROKEN_PIPE);
    assert_eq!(win32::ERROR_INSUFFICIENT_BUFFER, foundation::ERROR_INSUFFICIENT_BUFFER);
    assert_eq!(win32::ERROR_BUSY, foundation::ERROR_BUSY);
    assert_eq!(win32::ERROR_MORE_DATA, foundation::ERROR_MORE_DATA);
    assert_eq!(win32::ERROR_ARITHMETIC_OVERFLOW, foundation::ERROR_ARITHMETIC_OVERFLOW);
    assert_eq!(win32::ERROR_NOT_FOUND, foundation::ERROR_NOT_FOUND);
    assert_eq!(win32::ERROR_NONE_MAPPED, foundation::ERROR_NONE_MAPPED);
    assert_eq!(
        win32::ERROR_INVALID_WINDOW_HANDLE,
        foundation::ERROR_INVALID_WINDOW_HANDLE
    );
    assert_eq!(WAIT_OBJECT_0, foundation::WAIT_OBJECT_0);
}

#[test]
fn counter_states_are_those_of_the_system() {
    assert_eq!(win32::PDH_CSTATUS_VALID_DATA, performance::PDH_CSTATUS_VALID_DATA);
    assert_eq!(win32::PDH_CSTATUS_NEW_DATA, performance::PDH_CSTATUS_NEW_DATA);
    assert_eq!(win32::PDH_MORE_DATA, performance::PDH_MORE_DATA);
    assert_eq!(win32::PDH_CSTATUS_NO_OBJECT, performance::PDH_CSTATUS_NO_OBJECT);
    assert_eq!(win32::PDH_CSTATUS_NO_COUNTER, performance::PDH_CSTATUS_NO_COUNTER);
    assert_eq!(
        win32::PDH_CSTATUS_INVALID_DATA,
        performance::PDH_CSTATUS_INVALID_DATA
    );
    assert_eq!(win32::PDH_INVALID_PATH, performance::PDH_INVALID_PATH);
}

#[test]
fn process_constants_are_those_of_the_system() {
    assert_eq!(model::IDLE_PRIORITY_CLASS, threading::IDLE_PRIORITY_CLASS);
    assert_eq!(
        model::BELOW_NORMAL_PRIORITY_CLASS,
        threading::BELOW_NORMAL_PRIORITY_CLASS
    );
    assert_eq!(model::NORMAL_PRIORITY_CLASS, threading::NORMAL_PRIORITY_CLASS);
    assert_eq!(
        model::ABOVE_NORMAL_PRIORITY_CLASS,
        threading::ABOVE_NORMAL_PRIORITY_CLASS
    );
    assert_eq!(model::HIGH_PRIORITY_CLASS, threading::HIGH_PRIORITY_CLASS);
    assert_eq!(model::REALTIME_PRIORITY_CLASS, threading::REALTIME_PRIORITY_CLASS);
    assert_eq!(debugger::REG_SZ, registry::REG_SZ);
    assert_eq!(debugger::REG_EXPAND_SZ, registry::REG_EXPAND_SZ);
    assert_eq!(debugger::KEY_WOW64_32KEY, registry::KEY_WOW64_32KEY);
    assert_eq!(debugger::KEY_WOW64_64KEY, registry::KEY_WOW64_64KEY);
    assert_eq!(debugger::IMAGE_FILE_MACHINE_UNKNOWN, system::IMAGE_FILE_MACHINE_UNKNOWN);
    assert_eq!(debugger::IMAGE_FILE_MACHINE_I386, system::IMAGE_FILE_MACHINE_I386);
    assert_eq!(debugger::IMAGE_FILE_MACHINE_ARM, system::IMAGE_FILE_MACHINE_ARM);
    assert_eq!(debugger::IMAGE_FILE_MACHINE_THUMB, system::IMAGE_FILE_MACHINE_THUMB);
    assert_eq!(debugger::IMAGE_FILE_MACHINE_ARMNT, system::IMAGE_FILE_MACHINE_ARMNT);
    assert_eq!(debugger::IMAGE_FILE_MACHINE_IA64, system::IMAGE_FILE_MACHINE_IA64);
    assert_eq!(debugger::IMAGE_FILE_MACHINE_AMD64, system::IMAGE_FILE_MACHINE_AMD64);
    assert_eq!(debugger::IMAGE_FILE_MACHINE_ARM64, system::IMAGE_FILE_MACHINE_ARM64);
    assert_eq!(IDYES, windows::IDYES);
    assert_eq!(
        PF_VIRT_FIRMWARE_ENABLED,
        threading::PF_VIRT_FIRMWARE_ENABLED
    );
    assert_eq!(
        PF_SECOND_LEVEL_ADDRESS_TRANSLATION,
        threading::PF_SECOND_LEVEL_ADDRESS_TRANSLATION
    );
    assert_eq!(MAX_TASK_ICON_WORKERS, 8);
}

#[test]
fn graphics_constants_are_those_of_the_system() {
    assert_eq!(
        inventory::QUERYREGISTRY_STATUS_SUCCESS,
        kmt::D3DDDI_QUERYREGISTRY_STATUS_SUCCESS
    );
    assert_eq!(
        inventory::QUERYREGISTRY_STATUS_FAIL,
        kmt::D3DDDI_QUERYREGISTRY_STATUS_FAIL
    );
    assert_eq!(
        inventory::QUERYREGISTRY_STATUS_BUFFER_OVERFLOW,
        kmt::D3DDDI_QUERYREGISTRY_STATUS_BUFFER_OVERFLOW
    );
    assert_eq!(
        inventory::STATUS_BUFFER_OVERFLOW,
        foundation::STATUS_BUFFER_OVERFLOW
    );
    assert_eq!(
        inventory::STATUS_BUFFER_TOO_SMALL,
        foundation::STATUS_BUFFER_TOO_SMALL
    );
    assert_eq!(metadata::DEVPROP_TYPE_STRING, properties::DEVPROP_TYPE_STRING);
    assert_eq!(
        metadata::DEVPROP_TYPE_STRING_LIST,
        properties::DEVPROP_TYPE_STRING_LIST
    );
    assert_eq!(metadata::DEVPROP_TYPE_FILETIME, properties::DEVPROP_TYPE_FILETIME);
    assert_eq!(scroll::SB_LINEUP, windows::SB_LINEUP);
    assert_eq!(scroll::SB_LINEDOWN, windows::SB_LINEDOWN);
    assert_eq!(scroll::SB_PAGEUP, windows::SB_PAGEUP);
    assert_eq!(scroll::SB_PAGEDOWN, windows::SB_PAGEDOWN);
    assert_eq!(scroll::SB_THUMBPOSITION, windows::SB_THUMBPOSITION);
    assert_eq!(scroll::SB_THUMBTRACK, windows::SB_THUMBTRACK);
    assert_eq!(scroll::SB_TOP, windows::SB_TOP);
    assert_eq!(scroll::SB_BOTTOM, windows::SB_BOTTOM);
    assert_eq!(scroll::SB_ENDSCROLL, windows::SB_ENDSCROLL);
    assert_eq!(CBN_SELCHANGE, windows::CBN_SELCHANGE);
}
