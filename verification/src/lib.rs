//! A PowerShell Remoting Protocol (MS-PSRP) toolkit: the CLIXML object
//! encoder and decoder, the `CreatePipeline` message builder, the small
//! hand-rolled codecs behind them, the SSH transport's host-key trust
//! decision, and the decisions of the WinRM transport's receive loop.

pub mod text;
pub mod clixml;
pub mod ssh;
pub mod internal;
pub mod transport;
