//! The fixed byte strings of the AT protocol, each as a spec value and as
//! an executable array that is proved equal to it.
use vstd::prelude::*;

verus! {

/// Prefix of a command echo: `AT+`.
pub open spec fn echo() -> Seq<u8> {
    seq![65u8, 84u8, 43u8]
}

/// Prefix of a command echo: `AT+`.
pub fn echo_bytes() -> (r: [u8; 3])
    ensures
        r@ == echo(),
{
    [65, 84, 43]
}

/// Prefix of a data-available notice: `+IPD`.
pub open spec fn ipd() -> Seq<u8> {
    seq![43u8, 73u8, 80u8, 68u8]
}

/// Prefix of a data-available notice: `+IPD`.
pub fn ipd_bytes() -> (r: [u8; 4])
    ensures
        r@ == ipd(),
{
    [43, 73, 80, 68]
}

/// Prefix of a length-prefixed data frame: `+CIPRECVDATA`.
pub open spec fn recv_data() -> Seq<u8> {
    seq![43u8, 67u8, 73u8, 80u8, 82u8, 69u8, 67u8, 86u8, 68u8, 65u8, 84u8, 65u8]
}

/// Prefix of a length-prefixed data frame: `+CIPRECVDATA`.
pub fn recv_data_bytes() -> (r: [u8; 12])
    ensures
        r@ == recv_data(),
{
    [43, 67, 73, 80, 82, 69, 67, 86, 68, 65, 84, 65]
}

/// Tail of a socket-connected line: `,CONNECT`.
pub open spec fn connect_suffix() -> Seq<u8> {
    seq![44u8, 67u8, 79u8, 78u8, 78u8, 69u8, 67u8, 84u8]
}

/// Tail of a socket-connected line: `,CONNECT`.
pub fn connect_suffix_bytes() -> (r: [u8; 8])
    ensures
        r@ == connect_suffix(),
{
    [44, 67, 79, 78, 78, 69, 67, 84]
}

/// Tail of a socket-closed line: `,CLOSED`.
pub open spec fn closed_suffix() -> Seq<u8> {
    seq![44u8, 67u8, 76u8, 79u8, 83u8, 69u8, 68u8]
}

/// Tail of a socket-closed line: `,CLOSED`.
pub fn closed_suffix_bytes() -> (r: [u8; 7])
    ensures
        r@ == closed_suffix(),
{
    [44, 67, 76, 79, 83, 69, 68]
}

/// Prefix of a received-byte-count line: `Recv`.
pub open spec fn recv() -> Seq<u8> {
    seq![82u8, 101u8, 99u8, 118u8]
}

/// Prefix of a received-byte-count line: `Recv`.
pub fn recv_bytes() -> (r: [u8; 4])
    ensures
        r@ == recv(),
{
    [82, 101, 99, 118]
}

/// Prefix of a received-byte-count line, with its space: `Recv `.
pub open spec fn recv_space() -> Seq<u8> {
    seq![82u8, 101u8, 99u8, 118u8, 32u8]
}

/// Prefix of a received-byte-count line, with its space: `Recv `.
pub fn recv_space_bytes() -> (r: [u8; 5])
    ensures
        r@ == recv_space(),
{
    [82, 101, 99, 118, 32]
}

/// Tail of a received-byte-count line: ` bytes`.
pub open spec fn bytes_suffix() -> Seq<u8> {
    seq![32u8, 98u8, 121u8, 116u8, 101u8, 115u8]
}

/// Tail of a received-byte-count line: ` bytes`.
pub fn bytes_suffix_bytes() -> (r: [u8; 6])
    ensures
        r@ == bytes_suffix(),
{
    [32, 98, 121, 116, 101, 115]
}

/// Firmware ready banner: `ready`.
pub open spec fn ready() -> Seq<u8> {
    seq![114u8, 101u8, 97u8, 100u8, 121u8]
}

/// Firmware ready banner: `ready`.
pub fn ready_bytes() -> (r: [u8; 5])
    ensures
        r@ == ready(),
{
    [114, 101, 97, 100, 121]
}

/// Send confirmation: `SEND OK`.
pub open spec fn send_ok() -> Seq<u8> {
    seq![83u8, 69u8, 78u8, 68u8, 32u8, 79u8, 75u8]
}

/// Send confirmation: `SEND OK`.
pub fn send_ok_bytes() -> (r: [u8; 7])
    ensures
        r@ == send_ok(),
{
    [83, 69, 78, 68, 32, 79, 75]
}

/// Send failure: `SEND FAIL`.
pub open spec fn send_fail() -> Seq<u8> {
    seq![83u8, 69u8, 78u8, 68u8, 32u8, 70u8, 65u8, 73u8, 76u8]
}

/// Send failure: `SEND FAIL`.
pub fn send_fail_bytes() -> (r: [u8; 9])
    ensures
        r@ == send_fail(),
{
    [83, 69, 78, 68, 32, 70, 65, 73, 76]
}

/// Prefix of the Wi-Fi state lines: `WIFI`.
pub open spec fn wifi() -> Seq<u8> {
    seq![87u8, 73u8, 70u8, 73u8]
}

/// Prefix of the Wi-Fi state lines: `WIFI`.
pub fn wifi_bytes() -> (r: [u8; 4])
    ensures
        r@ == wifi(),
{
    [87, 73, 70, 73]
}

/// Wi-Fi joined: `WIFI CONNECTED`.
pub open spec fn wifi_connected() -> Seq<u8> {
    seq![87u8, 73u8, 70u8, 73u8, 32u8, 67u8, 79u8, 78u8, 78u8, 69u8, 67u8, 84u8, 69u8, 68u8]
}

/// Wi-Fi joined: `WIFI CONNECTED`.
pub fn wifi_connected_bytes() -> (r: [u8; 14])
    ensures
        r@ == wifi_connected(),
{
    [87, 73, 70, 73, 32, 67, 79, 78, 78, 69, 67, 84, 69, 68]
}

/// Wi-Fi lost: `WIFI DISCONNECT`.
pub open spec fn wifi_disconnect() -> Seq<u8> {
    seq![87u8, 73u8, 70u8, 73u8, 32u8, 68u8, 73u8, 83u8, 67u8, 79u8, 78u8, 78u8, 69u8, 67u8, 84u8]
}

/// Wi-Fi lost: `WIFI DISCONNECT`.
pub fn wifi_disconnect_bytes() -> (r: [u8; 15])
    ensures
        r@ == wifi_disconnect(),
{
    [87, 73, 70, 73, 32, 68, 73, 83, 67, 79, 78, 78, 69, 67, 84]
}

/// Address assigned: `WIFI GOT IP`.
pub open spec fn wifi_got_ip() -> Seq<u8> {
    seq![87u8, 73u8, 70u8, 73u8, 32u8, 71u8, 79u8, 84u8, 32u8, 73u8, 80u8]
}

/// Address assigned: `WIFI GOT IP`.
pub fn wifi_got_ip_bytes() -> (r: [u8; 11])
    ensures
        r@ == wifi_got_ip(),
{
    [87, 73, 70, 73, 32, 71, 79, 84, 32, 73, 80]
}

/// Connect answered for a live link: `ALREADY CONNECTED`.
pub open spec fn already_connected() -> Seq<u8> {
    seq![65u8, 76u8, 82u8, 69u8, 65u8, 68u8, 89u8, 32u8, 67u8, 79u8, 78u8, 78u8, 69u8, 67u8, 84u8, 69u8, 68u8]
}

/// Connect answered for a live link: `ALREADY CONNECTED`.
pub fn already_connected_bytes() -> (r: [u8; 17])
    ensures
        r@ == already_connected(),
{
    [65, 76, 82, 69, 65, 68, 89, 32, 67, 79, 78, 78, 69, 67, 84, 69, 68]
}

/// Marker of a boot banner line: `rst cause:`.
pub open spec fn rst_cause() -> Seq<u8> {
    seq![114u8, 115u8, 116u8, 32u8, 99u8, 97u8, 117u8, 115u8, 101u8, 58u8]
}

/// Marker of a boot banner line: `rst cause:`.
pub fn rst_cause_bytes() -> (r: [u8; 10])
    ensures
        r@ == rst_cause(),
{
    [114, 115, 116, 32, 99, 97, 117, 115, 101, 58]
}

/// Ready line as split on line feeds: `ready\r`.
pub open spec fn ready_cr() -> Seq<u8> {
    seq![114u8, 101u8, 97u8, 100u8, 121u8, 13u8]
}

/// Ready line as split on line feeds: `ready\r`.
pub fn ready_cr_bytes() -> (r: [u8; 6])
    ensures
        r@ == ready_cr(),
{
    [114, 101, 97, 100, 121, 13]
}

/// Ready frame: `ready\r\n`.
pub open spec fn ready_crlf() -> Seq<u8> {
    seq![114u8, 101u8, 97u8, 100u8, 121u8, 13u8, 10u8]
}

/// Ready frame: `ready\r\n`.
pub fn ready_crlf_bytes() -> (r: [u8; 7])
    ensures
        r@ == ready_crlf(),
{
    [114, 101, 97, 100, 121, 13, 10]
}

/// Line terminator: `\r\n`.
pub open spec fn crlf() -> Seq<u8> {
    seq![13u8, 10u8]
}

/// Line terminator: `\r\n`.
pub fn crlf_bytes() -> (r: [u8; 2])
    ensures
        r@ == crlf(),
{
    [13, 10]
}

/// Command head: `AT`.
pub open spec fn at() -> Seq<u8> {
    seq![65u8, 84u8]
}

/// Command head: `AT`.
pub fn at_bytes() -> (r: [u8; 2])
    ensures
        r@ == at(),
{
    [65, 84]
}

/// Separator between a command and its arguments: `=`.
pub open spec fn equals() -> Seq<u8> {
    seq![61u8]
}

/// Separator between a command and its arguments: `=`.
pub fn equals_bytes() -> (r: [u8; 1])
    ensures
        r@ == equals(),
{
    [61]
}

/// Wi-Fi mode command: `+CWMODE`.
pub open spec fn cmd_cwmode() -> Seq<u8> {
    seq![43u8, 67u8, 87u8, 77u8, 79u8, 68u8, 69u8]
}

/// Wi-Fi mode command: `+CWMODE`.
pub fn cmd_cwmode_bytes() -> (r: [u8; 7])
    ensures
        r@ == cmd_cwmode(),
{
    [43, 67, 87, 77, 79, 68, 69]
}

/// Auto-connect command: `+CWAUTOCONN`.
pub open spec fn cmd_cwautoconn() -> Seq<u8> {
    seq![43u8, 67u8, 87u8, 65u8, 85u8, 84u8, 79u8, 67u8, 79u8, 78u8, 78u8]
}

/// Auto-connect command: `+CWAUTOCONN`.
pub fn cmd_cwautoconn_bytes() -> (r: [u8; 11])
    ensures
        r@ == cmd_cwautoconn(),
{
    [43, 67, 87, 65, 85, 84, 79, 67, 79, 78, 78]
}

/// Access point command: `+CWJAP`.
pub open spec fn cmd_cwjap() -> Seq<u8> {
    seq![43u8, 67u8, 87u8, 74u8, 65u8, 80u8]
}

/// Access point command: `+CWJAP`.
pub fn cmd_cwjap_bytes() -> (r: [u8; 6])
    ensures
        r@ == cmd_cwjap(),
{
    [43, 67, 87, 74, 65, 80]
}

/// Local address command: `+CIFSR`.
pub open spec fn cmd_cifsr() -> Seq<u8> {
    seq![43u8, 67u8, 73u8, 70u8, 83u8, 82u8]
}

/// Local address command: `+CIFSR`.
pub fn cmd_cifsr_bytes() -> (r: [u8; 6])
    ensures
        r@ == cmd_cifsr(),
{
    [43, 67, 73, 70, 83, 82]
}

/// Multiple connections command: `+CIPMUX`.
pub open spec fn cmd_cipmux() -> Seq<u8> {
    seq![43u8, 67u8, 73u8, 80u8, 77u8, 85u8, 88u8]
}

/// Multiple connections command: `+CIPMUX`.
pub fn cmd_cipmux_bytes() -> (r: [u8; 7])
    ensures
        r@ == cmd_cipmux(),
{
    [43, 67, 73, 80, 77, 85, 88]
}

/// Receive mode command: `+CIPRECVMODE`.
pub open spec fn cmd_ciprecvmode() -> Seq<u8> {
    seq![43u8, 67u8, 73u8, 80u8, 82u8, 69u8, 67u8, 86u8, 77u8, 79u8, 68u8, 69u8]
}

/// Receive mode command: `+CIPRECVMODE`.
pub fn cmd_ciprecvmode_bytes() -> (r: [u8; 12])
    ensures
        r@ == cmd_ciprecvmode(),
{
    [43, 67, 73, 80, 82, 69, 67, 86, 77, 79, 68, 69]
}

/// Connect command: `+CIPSTART`.
pub open spec fn cmd_cipstart() -> Seq<u8> {
    seq![43u8, 67u8, 73u8, 80u8, 83u8, 84u8, 65u8, 82u8, 84u8]
}

/// Connect command: `+CIPSTART`.
pub fn cmd_cipstart_bytes() -> (r: [u8; 9])
    ensures
        r@ == cmd_cipstart(),
{
    [43, 67, 73, 80, 83, 84, 65, 82, 84]
}

/// Transmission prepare command: `+CIPSEND`.
pub open spec fn cmd_cipsend() -> Seq<u8> {
    seq![43u8, 67u8, 73u8, 80u8, 83u8, 69u8, 78u8, 68u8]
}

/// Transmission prepare command: `+CIPSEND`.
pub fn cmd_cipsend_bytes() -> (r: [u8; 8])
    ensures
        r@ == cmd_cipsend(),
{
    [43, 67, 73, 80, 83, 69, 78, 68]
}

/// Receive data command: `+CIPRECVDATA`.
pub open spec fn cmd_ciprecvdata() -> Seq<u8> {
    seq![43u8, 67u8, 73u8, 80u8, 82u8, 69u8, 67u8, 86u8, 68u8, 65u8, 84u8, 65u8]
}

/// Receive data command: `+CIPRECVDATA`.
pub fn cmd_ciprecvdata_bytes() -> (r: [u8; 12])
    ensures
        r@ == cmd_ciprecvdata(),
{
    [43, 67, 73, 80, 82, 69, 67, 86, 68, 65, 84, 65]
}

/// Close command: `+CIPCLOSE`.
pub open spec fn cmd_cipclose() -> Seq<u8> {
    seq![43u8, 67u8, 73u8, 80u8, 67u8, 76u8, 79u8, 83u8, 69u8]
}

/// Close command: `+CIPCLOSE`.
pub fn cmd_cipclose_bytes() -> (r: [u8; 9])
    ensures
        r@ == cmd_cipclose(),
{
    [43, 67, 73, 80, 67, 76, 79, 83, 69]
}

/// Restart command: `+RST`.
pub open spec fn cmd_rst() -> Seq<u8> {
    seq![43u8, 82u8, 83u8, 84u8]
}

/// Restart command: `+RST`.
pub fn cmd_rst_bytes() -> (r: [u8; 4])
    ensures
        r@ == cmd_rst(),
{
    [43, 82, 83, 84]
}

/// Connection type of an IPv4 TCP link: `TCP`.
pub open spec fn tcp() -> Seq<u8> {
    seq![84u8, 67u8, 80u8]
}

/// Connection type of an IPv4 TCP link: `TCP`.
pub fn tcp_bytes() -> (r: [u8; 3])
    ensures
        r@ == tcp(),
{
    [84, 67, 80]
}

/// Connection type of an IPv6 TCP link: `TCPv6`.
pub open spec fn tcp_v6() -> Seq<u8> {
    seq![84u8, 67u8, 80u8, 118u8, 54u8]
}

/// Connection type of an IPv6 TCP link: `TCPv6`.
pub fn tcp_v6_bytes() -> (r: [u8; 5])
    ensures
        r@ == tcp_v6(),
{
    [84, 67, 80, 118, 54]
}

/// Address type of the station IPv4 address: `STAIP`.
pub open spec fn addr_staip() -> Seq<u8> {
    seq![83u8, 84u8, 65u8, 73u8, 80u8]
}

/// Address type of the station IPv4 address: `STAIP`.
pub fn addr_staip_bytes() -> (r: [u8; 5])
    ensures
        r@ == addr_staip(),
{
    [83, 84, 65, 73, 80]
}

/// Address type of the link-local IPv6 address: `STAIP6LL`.
pub open spec fn addr_staip6ll() -> Seq<u8> {
    seq![83u8, 84u8, 65u8, 73u8, 80u8, 54u8, 76u8, 76u8]
}

/// Address type of the link-local IPv6 address: `STAIP6LL`.
pub fn addr_staip6ll_bytes() -> (r: [u8; 8])
    ensures
        r@ == addr_staip6ll(),
{
    [83, 84, 65, 73, 80, 54, 76, 76]
}

/// Address type of the global IPv6 address: `STAIP6GL`.
pub open spec fn addr_staip6gl() -> Seq<u8> {
    seq![83u8, 84u8, 65u8, 73u8, 80u8, 54u8, 71u8, 76u8]
}

/// Address type of the global IPv6 address: `STAIP6GL`.
pub fn addr_staip6gl_bytes() -> (r: [u8; 8])
    ensures
        r@ == addr_staip6gl(),
{
    [83, 84, 65, 73, 80, 54, 71, 76]
}

/// Address type of the station MAC address: `STAMAC`.
pub open spec fn addr_stamac() -> Seq<u8> {
    seq![83u8, 84u8, 65u8, 77u8, 65u8, 67u8]
}

/// Address type of the station MAC address: `STAMAC`.
pub fn addr_stamac_bytes() -> (r: [u8; 6])
    ensures
        r@ == addr_stamac(),
{
    [83, 84, 65, 77, 65, 67]
}

} // verus!
