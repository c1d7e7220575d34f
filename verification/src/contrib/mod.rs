pub mod ondemand;
