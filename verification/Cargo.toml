[package]
name = "kebisafe"
version = "0.1.0"
edition = "2021"
publish = false

[dependencies]
aes-gcm-siv = "0.10"
anyhow = "1"
argon2 = "0.5"
async-ctrlc = "1"
async-std = { version = "1", features = ["attributes"] }
async-trait = "0.1"
clap = { version = "3", features = ["derive"] }
data-encoding = "2"
dotenv = "0.15"
envy = "0.4"
flexi_logger = "*"
image = { version = "0.23", default-features = false, features = ["png", "jpeg", "gif"] }
log = "0.4"
mime_guess = "2"
multipart = { version = "0.18", default-features = false, features = ["server"] }
rand = "0.8"
redis = { version = "0.23", default-features = false, features = ["async-std-comp"] }
rpassword = "*"
serde = { version = "1", features = ["derive"] }
serde_json = "1"
sqlx = { version = "0.8", default-features = false, features = ["runtime-async-std", "postgres", "time"] }
tide = "0.16"
time = "0.3"
url = "2"
