//! The categories under which the abuse database files an attack.

use vstd::prelude::*;

verus! {

pub const DNS_COMPROMISE: i32 = 1;

pub const DNS_POISONING: i32 = 2;

pub const FRAUD_ORDERS: i32 = 3;

pub const DDOS_ATTACK: i32 = 4;

pub const FTP_BRUTE_FORCE: i32 = 5;

pub const PING_OF_DEATH: i32 = 6;

pub const PHISHING: i32 = 7;

pub const FRAUD_VOIP: i32 = 8;

pub const OPEN_PROXY: i32 = 9;

pub const WEB_SPAM: i32 = 10;

pub const EMAIL_SPAM: i32 = 11;

pub const BLOG_SPAM: i32 = 12;

pub const VPN_IP: i32 = 13;

pub const PORT_SCAN: i32 = 14;

pub const HACKING: i32 = 15;

pub const SQL_INJECTION: i32 = 16;

pub const SPOOFING: i32 = 17;

pub const BRUTE_FORCE: i32 = 18;

pub const BAD_WEB_BOT: i32 = 19;

pub const EXPLOITED_HOST: i32 = 20;

pub const WEB_APP_ATTACK: i32 = 21;

pub const SSH: i32 = 22;

pub const IOT_TARGETED: i32 = 23;

} // verus!
