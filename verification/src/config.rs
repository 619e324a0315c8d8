//! The plain configuration records the core reads: the Rclone endpoint, the
//! general options, and the operator account. The file format and the
//! qBittorrent connection details live with the I/O outside.

use vstd::prelude::*;
use vstd::string::StringSliceAdditionalSpecFns;

use crate::auth::encode;
use crate::digest::md5_of;
use crate::hex::hex_of;

verus! {

/// Where and as whom to reach the Rclone daemon.
#[derive(Debug, Clone)]
pub struct RcloneConfig {
    pub rclone_host: String,
    pub rclone_username: String,
    pub rclone_password: String,
}

impl Default for RcloneConfig {
    fn default() -> (r: RcloneConfig)
        ensures
            r.rclone_host@ == "http://localhost:5572"@,
            r.rclone_username@ == "admin"@,
            r.rclone_password@ == "password"@,
    {
        RcloneConfig {
            rclone_host: String::from_str("http://localhost:5572"),
            rclone_username: String::from_str("admin"),
            rclone_password: String::from_str("password"),
        }
    }
}

/// The operator account; the password is stored hex-MD5 encoded.
#[derive(Debug, Clone)]
pub struct Account {
    pub username: String,
    pub password: String,
}

impl Default for Account {
    fn default() -> (r: Account)
        ensures
            r.username@ == "admin"@,
            r.password@ == hex_of(md5_of("adminadmin".spec_bytes())),
    {
        let password = encode("adminadmin");
        Account { username: String::from_str("admin"), password }
    }
}

/// General behavior switches and the default upload destination.
#[derive(Debug, Clone)]
pub struct GeneralConfig {
    pub is_only_inner_ip: bool,
    pub multi_login: bool,
    pub account: Account,
    pub default_upload_path: String,
}

impl Default for GeneralConfig {
    fn default() -> (r: GeneralConfig)
        ensures
            !r.is_only_inner_ip,
            r.multi_login,
            r.account.username@ == "admin"@,
            r.account.password@ == hex_of(md5_of("adminadmin".spec_bytes())),
            r.default_upload_path@.len() == 0,
    {
        GeneralConfig {
            is_only_inner_ip: false,
            multi_login: true,
            account: Account::default(),
            default_upload_path: String::new(),
        }
    }
}

} // verus!
